use nft_ledger::history::{HistoryEntry, StableBytes, HISTORY_ENTRY_BYTES};
use nft_ledger::identity::{Account, IdentityError, OwnerId, Subaccount};

fn sample() -> HistoryEntry {
    let mut sub = [0u8; 32];
    sub[0] = 0xaa;
    sub[31] = 0xbb;
    HistoryEntry {
        token_id: 0x0102_0304,
        account: Account::new(OwnerId::from_slice(&[5, 6, 7]).unwrap(), Some(Subaccount(sub))),
        time: 0x1112_1314_1516_1718,
        from_offset: 0x2122_2324,
    }
}

#[test]
fn history_entry_is_78_bytes() {
    assert_eq!(HISTORY_ENTRY_BYTES, 78);
    assert_eq!(sample().to_vec().len(), 78);
}

#[test]
fn history_entry_layout_is_exact() {
    let mut buf = [0xffu8; 78];
    sample().to_stable_bytes(&mut buf);
    let mut expected = [0u8; 78];
    expected[0..4].copy_from_slice(&[0x04, 0x03, 0x02, 0x01]);
    expected[4] = 3;
    expected[5..8].copy_from_slice(&[5, 6, 7]);
    expected[34] = 0xaa;
    expected[65] = 0xbb;
    expected[66..74].copy_from_slice(&[0x18, 0x17, 0x16, 0x15, 0x14, 0x13, 0x12, 0x11]);
    expected[74..78].copy_from_slice(&[0x24, 0x23, 0x22, 0x21]);
    assert_eq!(buf, expected);
    assert_eq!(sample().to_vec(), expected.to_vec());
}

#[test]
fn history_entry_round_trip() {
    let mut buf = [0u8; 78];
    sample().to_stable_bytes(&mut buf);
    let back = HistoryEntry::from_stable_bytes(&buf).unwrap();
    assert_eq!(back, sample());
    assert_eq!(back.token_id, 0x0102_0304);
    assert_eq!(back.time, 0x1112_1314_1516_1718);
    assert_eq!(back.from_offset, 0x2122_2324);
    assert_eq!(back.account.owner.to_vec(), vec![5, 6, 7]);
}

#[test]
fn history_entry_without_subaccount_reads_as_none() {
    let entry = HistoryEntry {
        token_id: 7,
        account: Account::new(OwnerId::from_slice(&[1]).unwrap(), None),
        time: 1,
        from_offset: 0,
    };
    let mut buf = [0u8; 78];
    entry.to_stable_bytes(&mut buf);
    assert_eq!(&buf[34..66], &[0u8; 32]);
    let back = HistoryEntry::from_stable_bytes(&buf).unwrap();
    assert!(back.account.subaccount.is_none());
    assert_eq!(back, entry);
}

#[test]
fn history_entry_with_widest_owner() {
    let owner: Vec<u8> = (1..=29).collect();
    let entry = HistoryEntry {
        token_id: u32::MAX,
        account: Account::new(OwnerId::from_slice(&owner).unwrap(), None),
        time: u64::MAX,
        from_offset: u32::MAX,
    };
    let mut buf = [0u8; 78];
    entry.to_stable_bytes(&mut buf);
    assert_eq!(buf[4], 29);
    assert_eq!(&buf[5..34], owner.as_slice());
    assert_eq!(HistoryEntry::from_stable_bytes(&buf).unwrap(), entry);
}

#[test]
fn history_entry_rejects_owner_length_over_29() {
    let mut buf = [0u8; 78];
    buf[4] = 30;
    assert_eq!(HistoryEntry::from_stable_bytes(&buf).err(), Some(IdentityError::InvalidIdentity));
    buf[4] = 255;
    assert_eq!(HistoryEntry::from_stable_bytes(&buf).err(), Some(IdentityError::InvalidIdentity));
}

#[test]
fn history_entry_read_at_offset() {
    let mut bytes = vec![0u8; 10];
    bytes.extend_from_slice(&sample().to_vec());
    bytes.extend_from_slice(&[1, 2, 3]);
    assert_eq!(HistoryEntry::read_at(&bytes, 10).unwrap(), sample());
}
