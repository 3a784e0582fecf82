use nft_ledger::certification::{to_decimal, CertTree};
use nft_ledger::identity::{Account, OwnerId};
use nft_ledger::state::State;
use nft_ledger::types::TransferFromArgs;
use sha2::Digest;

fn id(bytes: &[u8]) -> OwnerId {
    OwnerId::from_slice(bytes).unwrap()
}

fn sha(data: &[u8]) -> [u8; 32] {
    sha2::Sha256::digest(data).into()
}

fn ledger(block_size: u32) -> State {
    let mut s = State::with_block_size(id(&[0, 0, 0, 0, 0, 0, 0, 7, 1, 1]), block_size);
    s.init("Name".to_string(), "SYM".to_string(), id(&[0xc0, 1]), 5);
    s
}

fn mint(s: &mut State, to: OwnerId, token_id: u32) {
    let args = TransferFromArgs {
        from: Account::new(id(&[0xc0, 1]), None),
        to: Account::new(to, None),
        token_id,
        memo: None,
        created_at_time: None,
    };
    s.transfer_from(id(&[0xc0, 1]), 6, args).unwrap();
}

#[test]
fn decimal_digits() {
    assert_eq!(to_decimal(0), b"0".to_vec());
    assert_eq!(to_decimal(7), b"7".to_vec());
    assert_eq!(to_decimal(10), b"10".to_vec());
    assert_eq!(to_decimal(1234567890), b"1234567890".to_vec());
    assert_eq!(to_decimal(u64::MAX), b"18446744073709551615".to_vec());
}

#[test]
fn empty_tree_has_the_empty_root() {
    let t = CertTree::new();
    assert_eq!(
        t.root_hash(),
        [
            78, 62, 211, 92, 78, 45, 30, 232, 153, 150, 72, 63, 182, 38, 10, 100, 207, 251, 108,
            71, 219, 171, 33, 110, 121, 48, 232, 47, 129, 144, 209, 32
        ]
    );
    assert_eq!(
        t.certified_data(),
        [
            217, 93, 218, 9, 45, 87, 38, 18, 0, 77, 102, 124, 69, 184, 175, 130, 63, 49, 7, 123,
            161, 14, 30, 101, 201, 230, 49, 49, 228, 195, 241, 224
        ]
    );
    assert_eq!(t.lookup(&b"/name".to_vec()), None);
}

#[test]
fn certify_stores_the_sha256_of_the_content() {
    let mut t = CertTree::new();
    t.certify(b"/greeting".to_vec(), &b"hello".to_vec());
    assert_eq!(
        t.lookup(&b"/greeting".to_vec()),
        Some([
            44, 242, 77, 186, 95, 176, 163, 14, 38, 232, 59, 42, 197, 185, 226, 158, 27, 22, 30,
            92, 31, 167, 66, 94, 115, 4, 51, 98, 147, 139, 152, 36
        ])
    );
    assert_eq!(t.lookup(&b"/greetin".to_vec()), None);
    t.certify(b"/greeting".to_vec(), &b"bye".to_vec());
    assert_eq!(t.lookup(&b"/greeting".to_vec()), Some(sha(b"bye")));
}

#[test]
fn root_hash_of_one_entry() {
    let mut t = CertTree::new();
    t.certify(b"/history_total".to_vec(), &b"7".to_vec());
    assert_eq!(
        t.root_hash(),
        [
            52, 172, 52, 184, 38, 238, 158, 5, 44, 150, 160, 56, 37, 18, 160, 84, 60, 73, 60, 33,
            186, 229, 105, 191, 53, 68, 224, 24, 71, 211, 245, 216
        ]
    );
    assert_eq!(
        t.certified_data(),
        ic_certified_map::labeled_hash(b"http_assets", &t.root_hash())
    );
}

#[test]
fn root_hash_changes_with_the_content() {
    let mut t = CertTree::new();
    let empty = t.root_hash();
    t.certify(b"/a".to_vec(), &b"1".to_vec());
    let one = t.root_hash();
    t.certify(b"/a".to_vec(), &b"2".to_vec());
    let two = t.root_hash();
    assert_ne!(empty, one);
    assert_ne!(one, two);
    t.certify(b"/a".to_vec(), &b"1".to_vec());
    assert_eq!(t.root_hash(), one);
}

#[test]
fn witness_of_the_tree_reconstructs_the_root() {
    let mut t = CertTree::new();
    t.certify(b"/a".to_vec(), &b"1".to_vec());
    t.certify(b"/c".to_vec(), &b"3".to_vec());
    assert_eq!(t.tree().witness(b"/a").reconstruct(), t.root_hash());
    assert_eq!(t.tree().witness(b"/b").reconstruct(), t.root_hash());
}

#[test]
fn names_are_certified() {
    let s = ledger(1000);
    let mut t = CertTree::new();
    t.certify_names(&s);
    assert_eq!(t.lookup(&b"/name".to_vec()), Some(sha(b"Name")));
    assert_eq!(t.lookup(&b"/symbol".to_vec()), Some(sha(b"SYM")));
}

#[test]
fn totals_are_certified() {
    let mut s = ledger(1000);
    for token in 0..12 {
        mint(&mut s, id(&[0xa1]), token);
    }
    let mut t = CertTree::new();
    t.certify_totals(&s);
    assert_eq!(t.lookup(&b"/total_supply".to_vec()), Some(sha(b"12")));
    assert_eq!(t.lookup(&b"/history_total".to_vec()), Some(sha(b"13")));
}

#[test]
fn token_is_certified_with_owner_and_last_transaction() {
    let mut s = ledger(1000);
    mint(&mut s, id(&[0xa1, 2, 3]), 1205);
    let mut t = CertTree::new();
    t.certify_token(&s, 1205);
    let mut content = vec![3u8, 0xa1, 2, 3];
    content.extend_from_slice(&[0u8; 32]);
    content.extend_from_slice(&[1, 0, 0, 0]);
    assert_eq!(t.lookup(&b"/token/1205".to_vec()), Some(sha(&content)));
    t.certify_token(&s, 9);
    assert_eq!(t.lookup(&b"/token/9".to_vec()), None);
}

#[test]
fn commit_certifies_token_totals_and_closed_blocks() {
    let mut s = ledger(2);
    let mut t = CertTree::new();
    t.certify_names(&s);
    t.commit(&s, None, 0);
    assert_eq!(t.lookup(&b"/history_total".to_vec()), Some(sha(b"1")));
    assert_eq!(t.lookup(&b"/total_supply".to_vec()), Some(sha(b"0")));
    assert_eq!(t.lookup(&b"/history/0".to_vec()), None);

    mint(&mut s, id(&[0xa1]), 7);
    assert_eq!(s.pending().len(), 1);
    let before = t.root_hash();
    t.commit(&s, Some(7), 0);
    assert_ne!(t.root_hash(), before);
    assert_eq!(t.lookup(&b"/history_total".to_vec()), Some(sha(b"2")));
    assert_eq!(t.lookup(&b"/total_supply".to_vec()), Some(sha(b"1")));
    assert_eq!(t.lookup(&b"/history/0".to_vec()), Some(sha(&s.pending()[0].bytes)));
    assert!(t.lookup(&b"/token/7".to_vec()).is_some());
    assert_eq!(t.lookup(&b"/name".to_vec()), Some(sha(b"Name")));

    mint(&mut s, id(&[0xa1]), 8);
    mint(&mut s, id(&[0xa1]), 9);
    assert_eq!(s.pending().len(), 2);
    t.commit(&s, Some(9), 1);
    assert_eq!(t.lookup(&b"/history/1".to_vec()), Some(sha(&s.pending()[1].bytes)));
    assert_eq!(t.lookup(&b"/history/2".to_vec()), None);
}

#[test]
fn blocks_are_certified_from_an_index_on() {
    let mut s = ledger(1);
    mint(&mut s, id(&[0xa1]), 1);
    mint(&mut s, id(&[0xa1]), 2);
    let closed = s.take_flushes();
    assert_eq!(closed.len(), 3);
    let mut t = CertTree::new();
    t.certify_blocks(&closed, 2, 1);
    assert_eq!(t.lookup(&b"/history/0".to_vec()), None);
    assert_eq!(t.lookup(&b"/history/1".to_vec()), None);
    assert_eq!(t.lookup(&b"/history/2".to_vec()), Some(sha(&closed[2].bytes)));
    t.certify_blocks(&closed, 0, 1);
    assert_eq!(t.lookup(&b"/history/0".to_vec()), Some(sha(&closed[0].bytes)));
    assert_eq!(t.lookup(&b"/history/1".to_vec()), Some(sha(&closed[1].bytes)));
    t.certify_blocks(&closed, 3, 1);
}

#[test]
fn all_tokens_are_certified() {
    let mut s = ledger(1000);
    mint(&mut s, id(&[0xa1]), 3);
    mint(&mut s, id(&[0xa2]), 1);
    let mut t = CertTree::new();
    t.certify_all_tokens(&s);
    let mut one = CertTree::new();
    one.certify_token(&s, 1);
    assert!(t.lookup(&b"/token/3".to_vec()).is_some());
    assert_eq!(t.lookup(&b"/token/1".to_vec()), one.lookup(&b"/token/1".to_vec()));
    assert_eq!(t.lookup(&b"/token/2".to_vec()), None);
    assert_eq!(s.token_ids(), vec![3, 1]);
}
