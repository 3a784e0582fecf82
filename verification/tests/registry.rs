use nft_ledger::identity::{Account, OwnerId};
use nft_ledger::registry::Registry;
use nft_ledger::state::State;
use nft_ledger::types::{
    ApproveArgs, SetCustodianArgs, SetCustodiansError, TransferArgs, TransferFromArgs,
    TransferFromError,
};
use sha2::Digest;

fn id(bytes: &[u8]) -> OwnerId {
    OwnerId::from_slice(bytes).unwrap()
}

fn sha(data: &[u8]) -> [u8; 32] {
    sha2::Sha256::digest(data).into()
}

fn custodian() -> OwnerId {
    id(&[0xc0, 1])
}

fn alice() -> OwnerId {
    id(&[0xa1, 1])
}

fn registry(block_size: u32) -> Registry {
    Registry::init(
        id(&[0, 0, 0, 0, 0, 0, 0, 7, 1, 1]),
        block_size,
        "Name".to_string(),
        "SYM".to_string(),
        custodian(),
        5,
    )
}

fn mint_args(to: OwnerId, token_id: u32) -> TransferFromArgs {
    TransferFromArgs {
        from: Account::new(custodian(), None),
        to: Account::new(to, None),
        token_id,
        memo: None,
        created_at_time: None,
    }
}

fn certified(r: &Registry, key: &[u8]) -> Option<[u8; 32]> {
    r.tree().lookup(&key.to_vec())
}

#[test]
fn init_certifies_names_and_totals() {
    let r = registry(1000);
    assert_eq!(r.state().tx_total(), 1);
    assert_eq!(certified(&r, b"/name"), Some(sha(b"Name")));
    assert_eq!(certified(&r, b"/symbol"), Some(sha(b"SYM")));
    assert_eq!(certified(&r, b"/total_supply"), Some(sha(b"0")));
    assert_eq!(certified(&r, b"/history_total"), Some(sha(b"1")));
    assert_eq!(certified(&r, b"/history/0"), None);
    assert_eq!(
        r.certified_data(),
        ic_certified_map::labeled_hash(b"http_assets", &r.tree().root_hash())
    );
}

#[test]
fn every_commit_is_certified() {
    let mut r = registry(1000);
    assert_eq!(r.transfer_from(custodian(), 6, mint_args(alice(), 7)), Ok(1));
    assert_eq!(certified(&r, b"/total_supply"), Some(sha(b"1")));
    assert_eq!(certified(&r, b"/history_total"), Some(sha(b"2")));
    let minted = certified(&r, b"/token/7").unwrap();

    let approve = ApproveArgs {
        from_subaccount: None,
        spender: custodian(),
        token_id: 7,
        approved: true,
        memo: None,
        created_at_time: None,
    };
    assert_eq!(r.approve(alice(), 7, approve), Ok(2));
    let approved = certified(&r, b"/token/7").unwrap();
    assert_ne!(approved, minted);
    assert_eq!(certified(&r, b"/history_total"), Some(sha(b"3")));

    let to_custodian = TransferArgs {
        from_subaccount: None,
        to: Account::new(custodian(), None),
        token_id: 7,
        memo: None,
        created_at_time: None,
    };
    assert_eq!(r.transfer(alice(), 8, to_custodian), Ok(3));
    assert_ne!(certified(&r, b"/token/7").unwrap(), approved);
    assert_eq!(certified(&r, b"/total_supply"), Some(sha(b"1")));

    let add = SetCustodianArgs { custodian: alice(), approved: true };
    assert_eq!(r.set_custodian(custodian(), 9, add), Ok(4));
    assert_eq!(certified(&r, b"/history_total"), Some(sha(b"5")));
}

#[test]
fn rejected_calls_leave_the_tree() {
    let mut r = registry(1000);
    r.transfer_from(custodian(), 6, mint_args(alice(), 7)).unwrap();
    let root = r.tree().root_hash();
    assert_eq!(
        r.transfer_from(alice(), 7, mint_args(alice(), 8)),
        Err(TransferFromError::NotFound)
    );
    assert_eq!(
        r.set_custodian(alice(), 7, SetCustodianArgs { custodian: alice(), approved: true }),
        Err(SetCustodiansError::NotAllowed)
    );
    assert_eq!(r.tree().root_hash(), root);
    assert_eq!(r.state().tx_total(), 2);
}

#[test]
fn closed_blocks_are_certified_once_and_wait_for_the_host() {
    let mut r = registry(2);
    assert_eq!(certified(&r, b"/history/0"), None);
    r.transfer_from(custodian(), 6, mint_args(alice(), 7)).unwrap();
    let first = r.state().pending()[0].bytes.clone();
    assert_eq!(certified(&r, b"/history/0"), Some(sha(&first)));
    r.transfer_from(custodian(), 6, mint_args(alice(), 8)).unwrap();
    r.transfer_from(custodian(), 6, mint_args(alice(), 9)).unwrap();
    let root = r.tree().root_hash();
    let closed = r.take_flushes();
    assert_eq!(closed.len(), 2);
    assert_eq!(closed[0].bytes, first);
    assert_eq!(certified(&r, b"/history/1"), Some(sha(&closed[1].bytes)));
    assert_eq!(r.tree().root_hash(), root);
    assert!(r.take_flushes().is_empty());
    r.transfer_from(custodian(), 6, mint_args(alice(), 10)).unwrap();
    assert_eq!(r.state().pending().len(), 0);
    r.transfer_from(custodian(), 6, mint_args(alice(), 11)).unwrap();
    assert_eq!(certified(&r, b"/history/2"), Some(sha(&r.state().pending()[0].bytes)));
}

#[test]
fn restored_registry_certifies_the_same() {
    let mut r = registry(2);
    r.transfer_from(custodian(), 6, mint_args(alice(), 7)).unwrap();
    r.transfer_from(custodian(), 6, mint_args(alice(), 8)).unwrap();
    let history = r.take_flushes();
    let state = State::restore(r.state().snapshot()).unwrap();
    let back = Registry::restore(state, &history);
    for key in [
        &b"/name"[..],
        b"/symbol",
        b"/total_supply",
        b"/history_total",
        b"/token/7",
        b"/token/8",
        b"/history/0",
        b"/history/1",
    ] {
        assert_eq!(certified(&back, key), certified(&r, key));
    }
    assert_eq!(certified(&back, b"/history/0"), Some(sha(&history[0].bytes)));
    assert_eq!(certified(&back, b"/history/1"), None);
    assert_eq!(
        back.certified_data(),
        ic_certified_map::labeled_hash(b"http_assets", &back.tree().root_hash())
    );
    assert_eq!(back.state().snapshot(), r.state().snapshot());
}
