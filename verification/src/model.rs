//! What the registry is, and what each operation makes of it.
//!
//! The registry's state is seen as a `LedgerView`. For each operation that
//! changes it, one function says on which inputs it is rejected and why, and
//! another gives the state after it.

use vstd::prelude::*;
use crate::codec::principal_text;
use crate::history::{entry_bytes, HistoryEntryView};
use crate::identity::{minter_view, subaccount_or_default, Account, AccountView};
use crate::types::{
    ApproveArgs,
    EventView,
    Offset,
    Rejection,
    SetCustodianArgs,
    TokenId,
    TokenView,
    TransferFromArgs,
    ValueView,
};

verus! {

/// Greatest number of ids that may be approved for one token.
pub const MAX_APPROVALS: usize = 256;

/// Greatest number of custodians.
pub const MAX_CUSTODIANS: usize = 256;

/// Number of token ids in one page of a listing.
pub const PAGE_SIZE: usize = 100_000;

/// Number of events after which the open block is written to durable
/// memory, where the registry was made without a number of its own.
pub const DEFAULT_BLOCK_SIZE: u32 = 1000;

/// Bytes that wait to be written to durable memory, and where they go.
pub struct FlushView {
    pub offset: nat,
    pub bytes: Seq<u8>,
}

/// What the registry is.
pub struct LedgerView {
    /// The registry's own identity: the owner of the minter account.
    pub registry: Seq<u8>,
    pub name: Seq<char>,
    pub symbol: Seq<char>,
    /// The tokens that exist.
    pub tokens: Map<TokenId, TokenView>,
    /// The ids of the tokens, in the order in which they came to exist.
    pub order: Seq<TokenId>,
    pub custodians: Set<Seq<u8>>,
    /// The last transaction that changed the custodians.
    pub custodians_tx: Offset,
    /// Number of transactions so far: the id of the next one.
    pub tx_total: nat,
    /// The open block: each event with its durable record.
    pub block: Seq<(EventView, HistoryEntryView)>,
    /// Number of events at which the open block is closed.
    pub block_size: nat,
    /// The closed blocks that the host has not yet taken.
    pub outbox: Seq<FlushView>,
}

/// Number of events at which the open block is closed: a block closes as
/// soon as it holds `block_size` events, so at the first one where that is 0.
pub open spec fn threshold(block_size: nat) -> nat {
    if block_size == 0 {
        1
    } else {
        block_size
    }
}

/// Number of transactions in closed blocks.
pub open spec fn flushed(s: LedgerView) -> int {
    s.tx_total - s.block.len()
}

/// The records of a block, one behind the other.
pub open spec fn block_bytes(block: Seq<(EventView, HistoryEntryView)>) -> Seq<u8>
    decreases block.len(),
{
    if block.len() == 0 {
        Seq::<u8>::empty()
    } else {
        block_bytes(block.drop_last()) + entry_bytes(block.last().1)
    }
}

/// The registry after one more transaction: the event joins the open block
/// under the next transaction id. A block that has reached its size is
/// closed: its records wait in the outbox, to be written where the records
/// of all earlier transactions end, and the open block is empty again.
pub open spec fn committed(s: LedgerView, e: EventView, r: HistoryEntryView) -> LedgerView {
    let block = s.block.push((e, r));
    if block.len() >= threshold(s.block_size) {
        LedgerView {
            tx_total: s.tx_total + 1,
            block: Seq::empty(),
            outbox: s.outbox.push(
                FlushView { offset: (flushed(s) * 78) as nat, bytes: block_bytes(block) },
            ),
            ..s
        }
    } else {
        LedgerView { tx_total: s.tx_total + 1, block, ..s }
    }
}

/// Where the event of a transaction is found.
pub enum TxPlace {
    /// No such transaction yet.
    Nowhere,
    /// In the open block, at this index.
    Open(int),
    /// In durable memory, its record at this offset.
    Durable(int),
}

/// Where transaction `tx_id` is found.
pub open spec fn tx_place(s: LedgerView, tx_id: int) -> TxPlace {
    if tx_id >= s.tx_total {
        TxPlace::Nowhere
    } else if tx_id >= flushed(s) {
        TxPlace::Open(tx_id - flushed(s))
    } else {
        TxPlace::Durable(tx_id * 78)
    }
}

/// The id of the open block: the number of closed ones.
pub open spec fn open_block_id(s: LedgerView) -> int {
    flushed(s) / (threshold(s.block_size) as int)
}

/// The token as a transfer finds it: a token that does not exist yet is
/// taken to lie with the minter, with no history and no approvals.
pub open spec fn token_or_unminted(s: LedgerView, id: TokenId) -> TokenView {
    if s.tokens.contains_key(id) {
        s.tokens[id]
    } else {
        TokenView { account: minter_view(s.registry), tx_id: 0, approved: Set::empty() }
    }
}

/// The message of the error that a burn by a caller who is no custodian gets.
pub open spec fn not_custodian_message() -> Seq<char> {
    "Caller is not custodian"@
}

/// Why a transfer is rejected, if it is. The checks are made in this order:
/// an unknown token and a caller who may not mint; a token that `from` does
/// not own, unless a custodian moves a token of the minter; a burn by a
/// caller who is no custodian; a caller who is neither `from` nor approved;
/// a destination that owns the token already.
pub open spec fn transfer_rejection(
    s: LedgerView,
    caller: Seq<u8>,
    args: TransferFromArgs,
) -> Option<Rejection> {
    let custodian = s.custodians.contains(caller);
    let minter = minter_view(s.registry);
    let token = token_or_unminted(s, args.token_id);
    if !s.tokens.contains_key(args.token_id) && !custodian {
        Some(Rejection::NotFound)
    } else if !(token.account == args.from@ || (custodian && token.account == minter)) {
        Some(Rejection::NotOwner)
    } else if args.to@ == minter && !custodian {
        Some(Rejection::Generic { code: 403, message: not_custodian_message() })
    } else if !(args.from.owner@ == caller || token.approved.contains(caller)) {
        Some(Rejection::NotApproved)
    } else if args.to@ == token.account {
        Some(Rejection::NotSelf)
    } else {
        None
    }
}

/// The operation that the event of a transfer names: a mint where the token
/// did not exist, else a burn where it goes to the minter, else a transfer
/// where the caller is `from`, else a transfer on behalf.
pub open spec fn transfer_operation(
    s: LedgerView,
    caller: Seq<u8>,
    args: TransferFromArgs,
) -> Seq<char> {
    if !s.tokens.contains_key(args.token_id) {
        "sld1:mint"@
    } else if args.to@ == minter_view(s.registry) {
        "sld1:burn"@
    } else if args.from.owner@ == caller {
        "sld1:transfer"@
    } else {
        "sld2:transfer_from"@
    }
}

/// The details of a transfer's event: the token, the time that the caller
/// gave and else the time of the call, the transaction that the token was
/// last changed by, and the memo where one was given.
pub open spec fn transfer_details(
    token_id: TokenId,
    now: u64,
    from_tx: Offset,
    memo: Option<[u8; 32]>,
    created_at_time: Option<u64>,
) -> Seq<(Seq<char>, ValueView)> {
    let time = match created_at_time {
        Some(t) => t,
        None => now,
    };
    let base = seq![
        ("token_id"@, ValueView::Nat(token_id as nat)),
        ("time"@, ValueView::Nat(time as nat)),
        ("from_tx"@, ValueView::Nat(from_tx as nat)),
    ];
    match memo {
        Some(m) => base.push(("memo"@, ValueView::Blob(m@))),
        None => base,
    }
}

/// The event of a transfer.
pub open spec fn transfer_event(
    s: LedgerView,
    caller: Seq<u8>,
    now: u64,
    args: TransferFromArgs,
) -> EventView {
    EventView {
        caller,
        operation: transfer_operation(s, caller, args),
        time: now,
        details: transfer_details(
            args.token_id,
            now,
            token_or_unminted(s, args.token_id).tx_id,
            args.memo,
            args.created_at_time,
        ),
    }
}

/// The durable record of a transfer: the token, its new owner, the time of
/// the call, and the transaction that the token was last changed by, which
/// is 0 for a token that did not exist.
pub open spec fn transfer_record(s: LedgerView, now: u64, args: TransferFromArgs) -> HistoryEntryView {
    HistoryEntryView {
        token_id: args.token_id,
        account: args.to@,
        time: now,
        from_offset: token_or_unminted(s, args.token_id).tx_id,
    }
}

/// The registry after a transfer that was not rejected: the token lies with
/// `to`, nobody is approved for it, its last transaction is the new one, and
/// a token that did not exist is the last in the order of tokens.
pub open spec fn after_transfer(
    s: LedgerView,
    caller: Seq<u8>,
    now: u64,
    args: TransferFromArgs,
) -> LedgerView {
    let moved = LedgerView {
        tokens: s.tokens.insert(
            args.token_id,
            TokenView { account: args.to@, tx_id: s.tx_total as Offset, approved: Set::empty() },
        ),
        order: if s.tokens.contains_key(args.token_id) {
            s.order
        } else {
            s.order.push(args.token_id)
        },
        ..s
    };
    committed(moved, transfer_event(s, caller, now, args), transfer_record(s, now, args))
}

/// Why an approval is rejected, if it is. The checks are made in this order:
/// a caller who approves itself; an unknown token; a caller whose account,
/// with the subaccount given, does not own the token; a new approval where
/// 256 ids are approved already.
pub open spec fn approve_rejection(s: LedgerView, caller: Seq<u8>, args: ApproveArgs) -> Option<
    Rejection,
> {
    let from = AccountView {
        owner: caller,
        subaccount: subaccount_or_default(args.from_subaccount),
    };
    if args.spender@ == caller {
        Some(Rejection::NotSelf)
    } else if !s.tokens.contains_key(args.token_id) {
        Some(Rejection::NotFound)
    } else if from != s.tokens[args.token_id].account {
        Some(Rejection::NotOwner)
    } else if args.approved && s.tokens[args.token_id].approved.len() == 256 {
        Some(Rejection::MaxApprovals(256))
    } else {
        None
    }
}

/// 1 for true, 0 for false.
pub open spec fn flag(b: bool) -> nat {
    if b {
        1
    } else {
        0
    }
}

/// The details of an approval's event.
pub open spec fn approve_details(from_tx: Offset, args: ApproveArgs) -> Seq<(Seq<char>, ValueView)> {
    let base = seq![
        ("token_id"@, ValueView::Nat(args.token_id as nat)),
        ("spender"@, ValueView::Text(principal_text(args.spender@))),
        ("approved"@, ValueView::Nat(flag(args.approved))),
        ("from_tx"@, ValueView::Nat(from_tx as nat)),
    ];
    let with_memo = match args.memo {
        Some(m) => base.push(("memo"@, ValueView::Blob(m@))),
        None => base,
    };
    match args.created_at_time {
        Some(t) => with_memo.push(("time"@, ValueView::Nat(t as nat))),
        None => with_memo,
    }
}

/// The event of an approval.
pub open spec fn approve_event(s: LedgerView, caller: Seq<u8>, now: u64, args: ApproveArgs) -> EventView {
    EventView {
        caller,
        operation: "sld2:approve"@,
        time: now,
        details: approve_details(s.tokens[args.token_id].tx_id, args),
    }
}

/// The durable record of an approval: the token and its owner, who stays,
/// the time of the call, and the transaction that the token was last changed
/// by.
pub open spec fn approve_record(s: LedgerView, now: u64, args: ApproveArgs) -> HistoryEntryView {
    HistoryEntryView {
        token_id: args.token_id,
        account: s.tokens[args.token_id].account,
        time: now,
        from_offset: s.tokens[args.token_id].tx_id,
    }
}

/// The registry after an approval that was not rejected: the spender is
/// among the token's approved ids, or no longer among them, and the token's
/// last transaction is the new one.
pub open spec fn after_approve(s: LedgerView, caller: Seq<u8>, now: u64, args: ApproveArgs) -> LedgerView {
    let token = s.tokens[args.token_id];
    let changed = LedgerView {
        tokens: s.tokens.insert(
            args.token_id,
            TokenView {
                account: token.account,
                tx_id: s.tx_total as Offset,
                approved: if args.approved {
                    token.approved.insert(args.spender@)
                } else {
                    token.approved.remove(args.spender@)
                },
            },
        ),
        ..s
    };
    committed(changed, approve_event(s, caller, now, args), approve_record(s, now, args))
}

/// Why a change to the custodians is rejected, if it is: the caller is no
/// custodian, or a custodian is to be added where there are 256 already.
pub open spec fn custodian_rejection(
    s: LedgerView,
    caller: Seq<u8>,
    args: SetCustodianArgs,
) -> Option<Rejection> {
    if !s.custodians.contains(caller) {
        Some(Rejection::NotAllowed)
    } else if args.approved && s.custodians.len() == 256 {
        Some(Rejection::MaxCustodians(256))
    } else {
        None
    }
}

/// The event of a change to the custodians.
pub open spec fn custodian_event(
    s: LedgerView,
    caller: Seq<u8>,
    now: u64,
    args: SetCustodianArgs,
) -> EventView {
    EventView {
        caller,
        operation: "sld4:set_custodian"@,
        time: now,
        details: seq![
            ("custodian"@, ValueView::Text(principal_text(args.custodian@))),
            ("approved"@, ValueView::Nat(flag(args.approved))),
            ("from_tx"@, ValueView::Nat(s.custodians_tx as nat)),
        ],
    }
}

/// The durable record of a change to the custodians. It is about no token:
/// it holds token id 0, the custodian in place of an owner, the time of the
/// call, and the last transaction that changed the custodians before.
pub open spec fn custodian_record(s: LedgerView, now: u64, args: SetCustodianArgs) -> HistoryEntryView {
    HistoryEntryView {
        token_id: 0,
        account: (Account { owner: args.custodian, subaccount: None })@,
        time: now,
        from_offset: s.custodians_tx,
    }
}

/// The registry after a change to the custodians that was not rejected.
pub open spec fn after_set_custodian(
    s: LedgerView,
    caller: Seq<u8>,
    now: u64,
    args: SetCustodianArgs,
) -> LedgerView {
    let changed = LedgerView {
        custodians: if args.approved {
            s.custodians.insert(args.custodian@)
        } else {
            s.custodians.remove(args.custodian@)
        },
        custodians_tx: s.tx_total as Offset,
        ..s
    };
    committed(changed, custodian_event(s, caller, now, args), custodian_record(s, now, args))
}

/// What holds of every registry: the open block is not full and holds the
/// last transactions; closed blocks are whole; each token occurs once in the
/// order of tokens; no token has more than 256 approved ids, and there are
/// no more than 256 custodians; the last transaction of a token, and the last
/// one that changed the custodians, are transactions that were made.
pub open spec fn ledger_wf(s: LedgerView) -> bool {
    &&& s.block.len() < threshold(s.block_size)
    &&& s.block.len() <= s.tx_total
    &&& s.tx_total <= u32::MAX
    &&& flushed(s) % (threshold(s.block_size) as int) == 0
    &&& s.order.no_duplicates()
    &&& forall|id: TokenId| s.tokens.contains_key(id) <==> s.order.contains(id)
    &&& forall|id: TokenId| #[trigger]
        s.tokens.contains_key(id) ==> s.tokens[id].approved.finite() && s.tokens[id].approved.len()
            <= 256
    &&& forall|id: TokenId| #[trigger]
        s.tokens.contains_key(id) ==> s.tokens[id].tx_id < s.tx_total
    &&& s.custodians.finite()
    &&& s.custodians.len() <= 256
    &&& s.custodians_tx == 0 || s.custodians_tx < s.tx_total
}

/// The registry without tokens, transactions and custodians.
pub open spec fn empty_ledger(registry: Seq<u8>, block_size: nat) -> LedgerView {
    LedgerView {
        registry,
        name: Seq::empty(),
        symbol: Seq::empty(),
        tokens: Map::empty(),
        order: Seq::empty(),
        custodians: Set::empty(),
        custodians_tx: 0,
        tx_total: 0,
        block: Seq::empty(),
        block_size,
        outbox: Seq::empty(),
    }
}

/// The registry after it was named and given its first custodian: the
/// custodian is the only one, and its own addition, with the custodian as
/// the caller, is the next transaction.
pub open spec fn after_init(
    s: LedgerView,
    name: Seq<char>,
    symbol: Seq<char>,
    custodian: crate::identity::OwnerId,
    now: u64,
) -> LedgerView {
    after_set_custodian(
        LedgerView { name, symbol, custodians: Set::empty().insert(custodian@), ..s },
        custodian@,
        now,
        SetCustodianArgs { custodian, approved: true },
    )
}

/// The ids, in the order of tokens, of those that lie with `account`
/// (`held` is true) or with anyone else (`held` is false).
pub open spec fn tokens_where(s: LedgerView, account: AccountView, held: bool) -> Seq<TokenId> {
    s.order.filter(lies_with(s.tokens, account, held))
}

/// Whether a token lies with `account` (`held` is true) or with anyone else
/// (`held` is false).
pub open spec fn lies_with(
    tokens: Map<TokenId, TokenView>,
    account: AccountView,
    held: bool,
) -> spec_fn(TokenId) -> bool {
    |id: TokenId| (tokens[id].account == account) == held
}

/// The arguments of the transfer on behalf that a transfer by `caller` is:
/// the caller's account, with the subaccount given, is the source.
pub open spec fn as_transfer_from(caller: crate::identity::OwnerId, args: crate::types::TransferArgs) -> TransferFromArgs {
    TransferFromArgs {
        from: Account { owner: caller, subaccount: args.from_subaccount },
        to: args.to,
        token_id: args.token_id,
        memo: args.memo,
        created_at_time: args.created_at_time,
    }
}

/// The ids of the tokens in circulation: those that do not lie with the
/// minter.
pub open spec fn in_circulation(s: LedgerView) -> Seq<TokenId> {
    tokens_where(s, minter_view(s.registry), false)
}

/// Page number `page` of `ids`: 100,000 ids to a page, the last page as many
/// as are left, and every page beyond it empty.
pub open spec fn page_of(ids: Seq<TokenId>, page: nat) -> Seq<TokenId> {
    let start = page * 100_000;
    if start >= ids.len() {
        Seq::empty()
    } else if start + 100_000 >= ids.len() {
        ids.subrange(start as int, ids.len() as int)
    } else {
        ids.subrange(start as int, (start + 100_000) as int)
    }
}

} // verus!
