use nft_ledger::history::HistoryEntry;
use nft_ledger::identity::{Account, OwnerId, Subaccount};
use nft_ledger::state::{supported_standards, State};
use nft_ledger::types::{
    ApproveArgs, ApproveError, BlockOrBucket, Detail, Event, EventOrBucket, GenericError,
    SetCustodianArgs, SetCustodiansError, StoredAt, TransferArgs, TransferError, TransferFromArgs,
    TransferFromError, Value,
};

const NOW: u64 = 1_700_000_000_000_000_000;

fn id(bytes: &[u8]) -> OwnerId {
    OwnerId::from_slice(bytes).unwrap()
}

fn registry() -> OwnerId {
    id(&[0, 0, 0, 0, 0, 0, 0, 7, 1, 1])
}

fn custodian() -> OwnerId {
    id(&[0xc0, 1])
}

fn alice() -> OwnerId {
    id(&[0xa1, 1])
}

fn bob() -> OwnerId {
    id(&[0xb0, 1])
}

fn numbered(n: u32) -> OwnerId {
    id(&[0xee, (n >> 8) as u8, n as u8])
}

fn account(owner: OwnerId) -> Account {
    Account::new(owner, None)
}

fn minter() -> Account {
    Account::minter(registry())
}

fn ledger() -> State {
    let mut s = State::new(registry());
    s.init("Name".to_string(), "SYM".to_string(), custodian(), NOW);
    s
}

fn transfer_args(from: Account, to: Account, token_id: u32) -> TransferFromArgs {
    TransferFromArgs { from, to, token_id, memo: None, created_at_time: None }
}

fn approve_args(spender: OwnerId, token_id: u32, approved: bool) -> ApproveArgs {
    ApproveArgs { from_subaccount: None, spender, token_id, approved, memo: None, created_at_time: None }
}

fn mint(s: &mut State, to: OwnerId, token_id: u32) -> u32 {
    s.transfer_from(custodian(), NOW, transfer_args(account(custodian()), account(to), token_id))
        .unwrap()
}

fn forbidden() -> TransferFromError {
    TransferFromError::GenericError(GenericError {
        error_code: 403,
        message: "Caller is not custodian".to_string(),
    })
}

fn event_of(s: &State, tx_id: u32) -> Event {
    match s.read_tx(tx_id) {
        Some(EventOrBucket::Event(e)) => e,
        other => panic!("no event in the open block: {:?}", other),
    }
}

fn detail(key: &str, value: Value) -> Detail {
    Detail { key: key.to_string(), value }
}

#[test]
fn init_records_the_custodian_as_first_transaction() {
    let s = ledger();
    assert_eq!(s.tx_total(), 1);
    assert_eq!(s.name(), "Name");
    assert_eq!(s.symbol(), "SYM");
    assert_eq!(s.get_custodians(), vec![custodian()]);
    assert!(s.registry() == registry());
    assert_eq!(s.total_supply(), 0);
    assert_eq!(
        event_of(&s, 0),
        Event {
            caller: custodian(),
            operation: "sld4:set_custodian".to_string(),
            time: NOW,
            details: vec![
                detail("custodian", Value::Text(custodian().to_text())),
                detail("approved", Value::Nat(1)),
                detail("from_tx", Value::Nat(0)),
            ],
        }
    );
}

#[test]
fn end_to_end() {
    let mut s = ledger();
    assert_eq!(s.tx_total(), 1);

    assert_eq!(mint(&mut s, alice(), 7), 1);
    assert!(s.owner_of(7) == Some(account(alice())));
    assert_eq!(s.tx_total(), 2);
    assert_eq!(s.balance_of(&account(alice())), 1);
    assert_eq!(s.total_supply(), 1);

    let burn_by_owner = TransferArgs {
        from_subaccount: None,
        to: minter(),
        token_id: 7,
        memo: None,
        created_at_time: None,
    };
    assert_eq!(
        s.transfer(alice(), NOW, burn_by_owner),
        Err(TransferError::GenericError(GenericError {
            error_code: 403,
            message: "Caller is not custodian".to_string(),
        }))
    );
    assert_eq!(s.tx_total(), 2);

    assert_eq!(s.approve(alice(), NOW, approve_args(custodian(), 7, true)), Ok(2));
    assert_eq!(
        s.transfer_from(custodian(), NOW, transfer_args(account(alice()), minter(), 7)),
        Ok(3)
    );
    assert_eq!(s.total_supply(), 0);
    assert_eq!(s.tx_total(), 4);
    assert!(s.owner_of(7) == Some(minter()));
    assert_eq!(s.balance_of(&account(alice())), 0);
    assert_eq!(event_of(&s, 3).operation, "sld1:burn");
}

#[test]
fn custodian_needs_approval_to_move_for_another_account() {
    let mut s = ledger();
    assert_eq!(
        s.transfer_from(custodian(), NOW, transfer_args(minter(), account(alice()), 7)),
        Err(TransferFromError::NotApproved)
    );
    mint(&mut s, alice(), 7);
    assert_eq!(
        s.transfer_from(custodian(), NOW, transfer_args(account(alice()), minter(), 7)),
        Err(TransferFromError::NotApproved)
    );
    assert_eq!(s.tx_total(), 2);
    assert_eq!(s.total_supply(), 1);
}

#[test]
fn unknown_token_by_non_custodian_is_not_found() {
    let mut s = ledger();
    assert_eq!(
        s.transfer_from(alice(), NOW, transfer_args(account(alice()), account(bob()), 1)),
        Err(TransferFromError::NotFound)
    );
    assert_eq!(
        s.transfer_from(alice(), NOW, transfer_args(minter(), account(alice()), 1)),
        Err(TransferFromError::NotFound)
    );
    assert!(s.owner_of(1).is_none());
    assert_eq!(s.tx_total(), 1);
}

#[test]
fn unknown_token_by_custodian_is_minted_for_the_destination() {
    let mut s = ledger();
    assert_eq!(mint(&mut s, bob(), 42), 1);
    assert!(s.owner_of(42) == Some(account(bob())));
    let e = event_of(&s, 1);
    assert_eq!(e.operation, "sld1:mint");
    assert!(e.caller == custodian());
    assert_eq!(
        e.details,
        vec![
            detail("token_id", Value::Nat(42)),
            detail("time", Value::Nat(NOW)),
            detail("from_tx", Value::Nat(0)),
        ]
    );
    assert_eq!(s.token(42).unwrap().tx_id, 1);
}

#[test]
fn transfer_to_current_owner_is_not_self() {
    let mut s = ledger();
    mint(&mut s, alice(), 7);
    assert_eq!(
        s.transfer_from(alice(), NOW, transfer_args(account(alice()), account(alice()), 7)),
        Err(TransferFromError::NotSelf)
    );
    s.approve(alice(), NOW, approve_args(bob(), 7, true)).unwrap();
    assert_eq!(
        s.transfer_from(bob(), NOW, transfer_args(account(alice()), account(alice()), 7)),
        Err(TransferFromError::NotSelf)
    );
    let with_zero = Account { owner: alice(), subaccount: Some(Subaccount([0u8; 32])) };
    assert_eq!(
        s.transfer_from(alice(), NOW, transfer_args(account(alice()), with_zero, 7)),
        Err(TransferFromError::NotSelf)
    );
    assert_eq!(s.tx_total(), 3);
}

#[test]
fn approve_self_is_not_self() {
    let mut s = ledger();
    mint(&mut s, alice(), 7);
    assert_eq!(
        s.approve(alice(), NOW, approve_args(alice(), 7, true)),
        Err(ApproveError::NotSelf)
    );
    assert_eq!(
        s.approve(alice(), NOW, approve_args(alice(), 999, false)),
        Err(ApproveError::NotSelf)
    );
    assert_eq!(s.tx_total(), 2);
}

#[test]
fn approve_rejections_in_order() {
    let mut s = ledger();
    mint(&mut s, alice(), 7);
    assert_eq!(
        s.approve(alice(), NOW, approve_args(bob(), 8, true)),
        Err(ApproveError::NotFound)
    );
    assert_eq!(
        s.approve(bob(), NOW, approve_args(alice(), 7, true)),
        Err(ApproveError::NotOwner)
    );
    let mut sub = [0u8; 32];
    sub[31] = 1;
    let wrong_subaccount = ApproveArgs {
        from_subaccount: Some(Subaccount(sub)),
        ..approve_args(bob(), 7, true)
    };
    assert_eq!(s.approve(alice(), NOW, wrong_subaccount), Err(ApproveError::NotOwner));
    let zero_subaccount = ApproveArgs {
        from_subaccount: Some(Subaccount([0u8; 32])),
        ..approve_args(bob(), 7, true)
    };
    assert_eq!(s.approve(alice(), NOW, zero_subaccount), Ok(2));
    assert_eq!(s.get_approved(7), vec![bob()]);
}

#[test]
fn approve_records_event_and_chains_history() {
    let mut s = ledger();
    mint(&mut s, alice(), 7);
    let args = ApproveArgs {
        memo: Some([9u8; 32]),
        created_at_time: Some(55),
        ..approve_args(bob(), 7, true)
    };
    assert_eq!(s.approve(alice(), NOW + 1, args), Ok(2));
    assert_eq!(
        event_of(&s, 2),
        Event {
            caller: alice(),
            operation: "sld2:approve".to_string(),
            time: NOW + 1,
            details: vec![
                detail("token_id", Value::Nat(7)),
                detail("spender", Value::Text(bob().to_text())),
                detail("approved", Value::Nat(1)),
                detail("from_tx", Value::Nat(1)),
                detail("memo", Value::Blob(vec![9u8; 32])),
                detail("time", Value::Nat(55)),
            ],
        }
    );
    assert_eq!(s.token(7).unwrap().tx_id, 2);
    assert_eq!(s.approve(alice(), NOW + 2, approve_args(bob(), 7, false)), Ok(3));
    assert_eq!(event_of(&s, 3).details[2], detail("approved", Value::Nat(0)));
    assert_eq!(event_of(&s, 3).details[3], detail("from_tx", Value::Nat(2)));
    assert!(s.get_approved(7).is_empty());
}

#[test]
fn removing_an_approval_is_idempotent() {
    let mut s = ledger();
    mint(&mut s, alice(), 7);
    assert_eq!(s.approve(alice(), NOW, approve_args(bob(), 7, false)), Ok(2));
    assert!(s.get_approved(7).is_empty());
    assert_eq!(s.approve(alice(), NOW, approve_args(bob(), 7, true)), Ok(3));
    assert_eq!(s.approve(alice(), NOW, approve_args(bob(), 7, true)), Ok(4));
    assert_eq!(s.get_approved(7), vec![bob()]);
}

#[test]
fn transfer_clears_approvals() {
    let mut s = ledger();
    mint(&mut s, alice(), 7);
    s.approve(alice(), NOW, approve_args(bob(), 7, true)).unwrap();
    s.approve(alice(), NOW, approve_args(numbered(1), 7, true)).unwrap();
    assert_eq!(s.get_approved(7).len(), 2);
    assert_eq!(
        s.transfer_from(bob(), NOW, transfer_args(account(alice()), account(bob()), 7)),
        Ok(4)
    );
    assert!(s.get_approved(7).is_empty());
    assert!(s.owner_of(7) == Some(account(bob())));
    assert_eq!(event_of(&s, 4).operation, "sld2:transfer_from");
    assert_eq!(
        s.transfer_from(numbered(1), NOW, transfer_args(account(bob()), account(alice()), 7)),
        Err(TransferFromError::NotApproved)
    );
}

#[test]
fn tx_total_counts_successful_calls_only() {
    let mut s = ledger();
    assert_eq!(s.tx_total(), 1);
    mint(&mut s, alice(), 1);
    assert_eq!(s.tx_total(), 2);
    assert!(s.transfer_from(bob(), NOW, transfer_args(account(bob()), account(alice()), 1)).is_err());
    assert_eq!(s.tx_total(), 2);
    assert!(s.approve(bob(), NOW, approve_args(alice(), 1, true)).is_err());
    assert_eq!(s.tx_total(), 2);
    assert!(s
        .set_custodian(bob(), NOW, SetCustodianArgs { custodian: bob(), approved: true })
        .is_err());
    assert_eq!(s.tx_total(), 2);
    s.approve(alice(), NOW, approve_args(bob(), 1, true)).unwrap();
    assert_eq!(s.tx_total(), 3);
    s.set_custodian(custodian(), NOW, SetCustodianArgs { custodian: bob(), approved: true })
        .unwrap();
    assert_eq!(s.tx_total(), 4);
    let own = TransferArgs {
        from_subaccount: None,
        to: account(bob()),
        token_id: 1,
        memo: None,
        created_at_time: None,
    };
    assert_eq!(s.transfer(alice(), NOW, own), Ok(4));
    assert_eq!(s.tx_total(), 5);
}

#[test]
fn approvals_are_bounded_at_256() {
    let mut s = ledger();
    mint(&mut s, alice(), 7);
    for n in 0..256 {
        assert!(s.approve(alice(), NOW, approve_args(numbered(n), 7, true)).is_ok());
    }
    assert_eq!(s.get_approved(7).len(), 256);
    let total = s.tx_total();
    assert_eq!(
        s.approve(alice(), NOW, approve_args(numbered(256), 7, true)),
        Err(ApproveError::MaxApprovals(256))
    );
    assert_eq!(s.get_approved(7).len(), 256);
    assert_eq!(s.tx_total(), total);
    assert_eq!(s.approve(alice(), NOW, approve_args(numbered(5), 7, false)), Ok(total));
    assert_eq!(s.get_approved(7).len(), 255);
    assert!(s.approve(alice(), NOW, approve_args(numbered(256), 7, true)).is_ok());
    assert_eq!(s.get_approved(7).len(), 256);
}

#[test]
fn custodians_are_bounded_at_256() {
    let mut s = ledger();
    for n in 0..255 {
        let args = SetCustodianArgs { custodian: numbered(n), approved: true };
        assert!(s.set_custodian(custodian(), NOW, args).is_ok());
    }
    assert_eq!(s.get_custodians().len(), 256);
    let total = s.tx_total();
    assert_eq!(
        s.set_custodian(custodian(), NOW, SetCustodianArgs { custodian: bob(), approved: true }),
        Err(SetCustodiansError::MaxCustodians(256))
    );
    assert_eq!(s.get_custodians().len(), 256);
    assert_eq!(s.tx_total(), total);
}

#[test]
fn set_custodian_by_non_custodian_is_not_allowed() {
    let mut s = ledger();
    assert_eq!(
        s.set_custodian(alice(), NOW, SetCustodianArgs { custodian: alice(), approved: true }),
        Err(SetCustodiansError::NotAllowed)
    );
    assert_eq!(
        s.set_custodian(alice(), NOW, SetCustodianArgs { custodian: custodian(), approved: false }),
        Err(SetCustodiansError::NotAllowed)
    );
    assert_eq!(s.get_custodians(), vec![custodian()]);
    assert_eq!(s.tx_total(), 1);
}

#[test]
fn set_custodian_adds_and_removes() {
    let mut s = ledger();
    assert_eq!(
        s.set_custodian(custodian(), NOW + 3, SetCustodianArgs { custodian: bob(), approved: true }),
        Ok(1)
    );
    assert_eq!(s.get_custodians(), vec![custodian(), bob()]);
    assert_eq!(
        event_of(&s, 1),
        Event {
            caller: custodian(),
            operation: "sld4:set_custodian".to_string(),
            time: NOW + 3,
            details: vec![
                detail("custodian", Value::Text(bob().to_text())),
                detail("approved", Value::Nat(1)),
                detail("from_tx", Value::Nat(0)),
            ],
        }
    );
    assert_eq!(
        s.set_custodian(bob(), NOW, SetCustodianArgs { custodian: custodian(), approved: false }),
        Ok(2)
    );
    assert_eq!(s.get_custodians(), vec![bob()]);
    assert_eq!(event_of(&s, 2).details[1], detail("approved", Value::Nat(0)));
    assert_eq!(event_of(&s, 2).details[2], detail("from_tx", Value::Nat(1)));
    assert_eq!(
        s.set_custodian(bob(), NOW, SetCustodianArgs { custodian: alice(), approved: false }),
        Ok(3)
    );
    assert_eq!(s.get_custodians(), vec![bob()]);
}

#[test]
fn transfer_checks_are_made_in_order() {
    let mut s = ledger();
    mint(&mut s, alice(), 7);
    // the owner is checked before the right to burn
    assert_eq!(
        s.transfer_from(bob(), NOW, transfer_args(account(bob()), minter(), 7)),
        Err(TransferFromError::NotOwner)
    );
    // the right to burn is checked before the approval
    assert_eq!(
        s.transfer_from(bob(), NOW, transfer_args(account(alice()), minter(), 7)),
        Err(forbidden())
    );
    // the approval is checked before the destination
    assert_eq!(
        s.transfer_from(bob(), NOW, transfer_args(account(alice()), account(alice()), 7)),
        Err(TransferFromError::NotApproved)
    );
    assert_eq!(
        s.transfer_from(bob(), NOW, transfer_args(account(alice()), account(bob()), 7)),
        Err(TransferFromError::NotApproved)
    );
    assert_eq!(s.tx_total(), 2);
}

#[test]
fn burned_token_can_be_minted_again_by_custodian() {
    let mut s = ledger();
    mint(&mut s, custodian(), 7);
    assert_eq!(
        s.transfer_from(custodian(), NOW, transfer_args(account(custodian()), minter(), 7)),
        Ok(2)
    );
    assert_eq!(event_of(&s, 2).operation, "sld1:burn");
    assert_eq!(s.total_supply(), 0);
    assert!(s.tokens(0).is_empty());
    // the token lies with the minter: a custodian may move it whatever `from` is
    assert_eq!(
        s.transfer_from(custodian(), NOW, transfer_args(account(custodian()), account(alice()), 7)),
        Ok(3)
    );
    assert_eq!(event_of(&s, 3).operation, "sld1:transfer");
    assert_eq!(event_of(&s, 3).details[2], detail("from_tx", Value::Nat(2)));
    assert_eq!(s.total_supply(), 1);
}

#[test]
fn transfer_records_memo_and_time() {
    let mut s = ledger();
    mint(&mut s, alice(), 7);
    let args = TransferArgs {
        from_subaccount: None,
        to: account(bob()),
        token_id: 7,
        memo: Some([3u8; 32]),
        created_at_time: Some(1234),
    };
    assert_eq!(s.transfer(alice(), NOW + 9, args), Ok(2));
    assert_eq!(
        event_of(&s, 2),
        Event {
            caller: alice(),
            operation: "sld1:transfer".to_string(),
            time: NOW + 9,
            details: vec![
                detail("token_id", Value::Nat(7)),
                detail("time", Value::Nat(1234)),
                detail("from_tx", Value::Nat(1)),
                detail("memo", Value::Blob(vec![3u8; 32])),
            ],
        }
    );
}

#[test]
fn transfer_from_subaccount() {
    let mut s = ledger();
    let mut sub = [0u8; 32];
    sub[0] = 1;
    let sub_account = Account::new(alice(), Some(Subaccount(sub)));
    s.transfer_from(custodian(), NOW, transfer_args(account(custodian()), sub_account, 7)).unwrap();
    assert_eq!(s.balance_of(&account(alice())), 0);
    assert_eq!(s.balance_of(&sub_account), 1);
    let wrong = TransferArgs {
        from_subaccount: None,
        to: account(bob()),
        token_id: 7,
        memo: None,
        created_at_time: None,
    };
    assert_eq!(s.transfer(alice(), NOW, wrong), Err(TransferError::NotOwner));
    let right = TransferArgs { from_subaccount: Some(Subaccount(sub)), ..wrong };
    assert_eq!(s.transfer(alice(), NOW, right), Ok(2));
    assert!(s.owner_of(7) == Some(account(bob())));
}

#[test]
fn not_approved_becomes_generic_for_owner_transfers() {
    assert_eq!(
        TransferFromError::NotApproved.to_transfer_error(),
        TransferError::GenericError(GenericError {
            error_code: 403,
            message: "Caller is not approved".to_string(),
        })
    );
    assert_eq!(TransferFromError::NotFound.to_transfer_error(), TransferError::NotFound);
    assert_eq!(TransferFromError::NotOwner.to_transfer_error(), TransferError::NotOwner);
    assert_eq!(TransferFromError::NotSelf.to_transfer_error(), TransferError::NotSelf);
    assert_eq!(
        TransferFromError::TemporarilyUnavailable.to_transfer_error(),
        TransferError::TemporarilyUnavailable
    );
    let generic = GenericError { error_code: 7, message: "seven".to_string() };
    assert_eq!(
        TransferFromError::GenericError(generic.clone()).to_transfer_error(),
        TransferError::GenericError(generic)
    );
}

#[test]
fn listings_are_paged_in_order_of_minting() {
    let mut s = ledger();
    for token in [30u32, 10, 20, 40] {
        mint(&mut s, alice(), token);
    }
    mint(&mut s, bob(), 5);
    s.approve(alice(), NOW, approve_args(custodian(), 10, true)).unwrap();
    s.transfer_from(custodian(), NOW, transfer_args(account(alice()), minter(), 10)).unwrap();
    assert_eq!(s.tokens(0), vec![30, 20, 40, 5]);
    assert_eq!(s.tokens_of(&account(alice()), 0), vec![30, 20, 40]);
    assert_eq!(s.tokens_of(&account(bob()), 0), vec![5]);
    assert_eq!(s.tokens_of(&minter(), 0), vec![10]);
    assert_eq!(s.total_supply(), 4);
    assert_eq!(s.balance_of(&account(alice())), 3);
    assert_eq!(s.balance_of(&minter()), 1);
}

#[test]
fn pages_beyond_the_end_are_empty() {
    let mut s = ledger();
    mint(&mut s, alice(), 1);
    assert!(s.tokens(1).is_empty());
    assert!(s.tokens(u64::MAX).is_empty());
    assert!(s.tokens_of(&account(alice()), 1).is_empty());
    assert!(s.tokens_of(&account(alice()), u64::MAX / 100_000 + 1).is_empty());
    assert!(s.tokens_of(&account(bob()), 0).is_empty());
}

#[test]
fn queries_on_unknown_tokens() {
    let s = ledger();
    assert!(s.owner_of(1).is_none());
    assert!(s.get_approved(1).is_empty());
    assert!(s.token(1).is_none());
    assert_eq!(s.balance_of(&account(alice())), 0);
    assert!(s.metadata().is_empty());
}

#[test]
fn full_block_is_paged_out() {
    let mut s = State::with_block_size(registry(), 2);
    assert_eq!(s.block_size(), 2);
    s.init("Name".to_string(), "SYM".to_string(), custodian(), 100);
    assert!(s.take_flushes().is_empty());
    assert!(matches!(s.read_block(0), Some(BlockOrBucket::Block(ref events)) if events.len() == 1));
    s.transfer_from(custodian(), 200, transfer_args(account(custodian()), account(alice()), 7))
        .unwrap();

    let flushes = s.take_flushes();
    assert_eq!(flushes.len(), 1);
    assert_eq!(flushes[0].offset, 0);
    assert_eq!(flushes[0].bytes.len(), 156);
    assert_eq!(
        HistoryEntry::read_at(&flushes[0].bytes, 0).unwrap(),
        HistoryEntry { token_id: 0, account: account(custodian()), time: 100, from_offset: 0 }
    );
    assert_eq!(
        HistoryEntry::read_at(&flushes[0].bytes, 78).unwrap(),
        HistoryEntry { token_id: 7, account: account(alice()), time: 200, from_offset: 0 }
    );
    assert!(s.take_flushes().is_empty());

    assert_eq!(s.tx_total(), 2);
    assert_eq!(s.read_tx(0), Some(EventOrBucket::Stored(StoredAt { offset: 0, len: 78 })));
    assert_eq!(s.read_tx(1), Some(EventOrBucket::Stored(StoredAt { offset: 78, len: 78 })));
    assert_eq!(s.read_tx(2), None);
    assert_eq!(s.read_block(0), Some(BlockOrBucket::Stored(StoredAt { offset: 0, len: 156 })));
    assert_eq!(s.read_block(1), Some(BlockOrBucket::Block(vec![])));
    assert_eq!(s.read_block(2), None);

    s.approve(alice(), 300, approve_args(bob(), 7, true)).unwrap();
    assert_eq!(event_of(&s, 2).operation, "sld2:approve");
    assert!(matches!(s.read_block(1), Some(BlockOrBucket::Block(ref events)) if events.len() == 1));
    s.transfer_from(bob(), 400, transfer_args(account(alice()), account(bob()), 7)).unwrap();
    let flushes = s.take_flushes();
    assert_eq!(flushes.len(), 1);
    assert_eq!(flushes[0].offset, 156);
    assert_eq!(
        HistoryEntry::read_at(&flushes[0].bytes, 0).unwrap(),
        HistoryEntry { token_id: 7, account: account(alice()), time: 300, from_offset: 1 }
    );
    assert_eq!(
        HistoryEntry::read_at(&flushes[0].bytes, 78).unwrap(),
        HistoryEntry { token_id: 7, account: account(bob()), time: 400, from_offset: 2 }
    );
    assert_eq!(s.read_tx(3), Some(EventOrBucket::Stored(StoredAt { offset: 234, len: 78 })));
    assert_eq!(s.read_block(1), Some(BlockOrBucket::Stored(StoredAt { offset: 156, len: 156 })));
    assert_eq!(s.read_block(2), Some(BlockOrBucket::Block(vec![])));
}

#[test]
fn closed_blocks_wait_until_taken() {
    let mut s = State::with_block_size(registry(), 1);
    s.init("Name".to_string(), "SYM".to_string(), custodian(), 1);
    mint(&mut s, alice(), 1);
    mint(&mut s, alice(), 2);
    let flushes = s.take_flushes();
    assert_eq!(flushes.iter().map(|f| f.offset).collect::<Vec<u64>>(), vec![0, 78, 156]);
    assert!(flushes.iter().all(|f| f.bytes.len() == 78));
    assert_eq!(s.tx_total(), 3);
    assert_eq!(s.total_supply(), 2);
}

#[test]
fn block_size_zero_closes_every_block() {
    let mut s = State::with_block_size(registry(), 0);
    assert_eq!(s.block_size(), 1);
    s.init("Name".to_string(), "SYM".to_string(), custodian(), 1);
    assert_eq!(s.take_flushes().len(), 1);
    assert_eq!(s.read_tx(0), Some(EventOrBucket::Stored(StoredAt { offset: 0, len: 78 })));
}

#[test]
fn open_block_is_readable() {
    let mut s = ledger();
    mint(&mut s, alice(), 7);
    assert_eq!(s.block_size(), 1000);
    assert_eq!(s.read_block(0), Some(BlockOrBucket::Block(vec![event_of(&s, 0), event_of(&s, 1)])));
    assert_eq!(s.read_block(1), None);
    assert_eq!(s.read_tx(2), None);
    assert_eq!(s.read_tx(u32::MAX), None);
}

#[test]
fn supported_standards_are_four() {
    let standards = supported_standards();
    let names: Vec<&str> = standards.iter().map(|s| s.name.as_str()).collect();
    assert_eq!(names, vec!["SLD-1", "SLD-2", "SLD-3", "SLD-4"]);
    assert!(standards.iter().all(|s| s.url == "https://github.com/slide-computer/slide-token"));
}

#[test]
fn snapshot_round_trip() {
    let mut s = State::with_block_size(registry(), 3);
    s.init("Name".to_string(), "SYM".to_string(), custodian(), NOW);
    mint(&mut s, alice(), 30);
    mint(&mut s, bob(), 10);
    s.approve(alice(), NOW, approve_args(bob(), 30, true)).unwrap();
    let snap = s.snapshot();
    assert_eq!(snap.tx_total, 4);
    assert_eq!(snap.block_size, 3);
    assert_eq!(snap.current_block.len(), 1);
    assert_eq!(snap.outbox.len(), 1);
    assert_eq!(snap.tokens.iter().map(|t| t.token_id).collect::<Vec<u32>>(), vec![30, 10]);
    assert_eq!(snap.tokens[0].approved, vec![bob()]);
    assert_eq!(snap.tokens[0].tx_id, 3);
    assert_eq!(snap.custodians, vec![custodian()]);
    assert_eq!(snap.name, "Name");

    let mut back = State::restore(snap.clone()).unwrap();
    assert_eq!(back.snapshot(), snap);
    assert_eq!(back.tx_total(), 4);
    assert_eq!(back.tokens(0), vec![30, 10]);
    assert_eq!(back.get_approved(30), vec![bob()]);
    assert_eq!(back.read_tx(3), s.read_tx(3));
    assert_eq!(back.read_tx(0), Some(EventOrBucket::Stored(StoredAt { offset: 0, len: 78 })));
    assert_eq!(
        back.transfer_from(bob(), NOW, transfer_args(account(alice()), account(bob()), 30)),
        Ok(4)
    );
    assert_eq!(back.take_flushes().len(), 1);
}

#[test]
fn restore_rejects_malformed_snapshots() {
    let mut s = State::with_block_size(registry(), 3);
    s.init("Name".to_string(), "SYM".to_string(), custodian(), NOW);
    mint(&mut s, alice(), 30);
    mint(&mut s, bob(), 10);
    s.approve(alice(), NOW, approve_args(bob(), 30, true)).unwrap();
    let good = s.snapshot();
    assert_eq!(good.current_block.len(), 1);
    assert!(State::restore(good.clone()).is_some());

    let mut twice = good.clone();
    twice.tokens[1].token_id = 30;
    assert!(State::restore(twice).is_none());

    let mut approved_twice = good.clone();
    approved_twice.tokens[0].approved = vec![bob(), bob()];
    assert!(State::restore(approved_twice).is_none());

    let mut too_many = good.clone();
    too_many.tokens[0].approved = (0..257).map(numbered).collect();
    assert!(State::restore(too_many).is_none());

    let mut custodian_twice = good.clone();
    custodian_twice.custodians = vec![custodian(), custodian()];
    assert!(State::restore(custodian_twice).is_none());

    let mut too_many_custodians = good.clone();
    too_many_custodians.custodians = (0..257).map(numbered).collect();
    assert!(State::restore(too_many_custodians).is_none());

    let mut full_block = good.clone();
    full_block.block_size = 0;
    assert!(State::restore(full_block).is_none());

    let mut torn = good.clone();
    torn.tx_total = 5;
    assert!(State::restore(torn).is_none());

    let mut short = good;
    short.tx_total = 0;
    short.current_block.truncate(1);
    assert!(State::restore(short).is_none());
}

#[test]
fn owner_transfer_reports_the_same_rejections() {
    let mut s = ledger();
    mint(&mut s, alice(), 7);
    let args = |to: Account, token_id: u32| TransferArgs {
        from_subaccount: None,
        to,
        token_id,
        memo: None,
        created_at_time: None,
    };
    assert_eq!(s.transfer(alice(), NOW, args(account(bob()), 8)), Err(TransferError::NotFound));
    assert_eq!(s.transfer(bob(), NOW, args(account(alice()), 7)), Err(TransferError::NotOwner));
    assert_eq!(s.transfer(alice(), NOW, args(account(alice()), 7)), Err(TransferError::NotSelf));
    assert_eq!(s.tx_total(), 2);
    assert_eq!(s.transfer(alice(), NOW, args(account(bob()), 7)), Ok(2));
    assert_eq!(event_of(&s, 2).operation, "sld1:transfer");
}

#[test]
fn custodian_mints_for_itself_by_owner_transfer() {
    let mut s = ledger();
    let args = TransferArgs {
        from_subaccount: None,
        to: account(alice()),
        token_id: 3,
        memo: None,
        created_at_time: None,
    };
    assert_eq!(s.transfer(custodian(), NOW, args), Ok(1));
    assert_eq!(event_of(&s, 1).operation, "sld1:mint");
    assert!(s.owner_of(3) == Some(account(alice())));
    assert_eq!(s.token_ids(), vec![3]);
}
