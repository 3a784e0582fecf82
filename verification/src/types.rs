//! The values that the registry's operations take and return.

use vstd::prelude::*;
use crate::identity::{Account, AccountView, OwnerId, Subaccount};
use crate::idset::IdSet;

verus! {

/// A token id. The durable history holds it in four bytes.
pub type TokenId = u32;

/// A transaction id: the position of an event in the history.
pub type Offset = u32;

/// Nanoseconds since the epoch.
pub type Time = u64;

/// What a detail of an event holds.
#[derive(Clone, Debug, PartialEq, Eq)]
pub enum Value {
    Nat(u64),
    Int(i64),
    Text(String),
    Blob(Vec<u8>),
}

/// What a `Value` is.
pub enum ValueView {
    Nat(nat),
    Int(int),
    Text(Seq<char>),
    Blob(Seq<u8>),
}

impl View for Value {
    type V = ValueView;

    open spec fn view(&self) -> ValueView {
        match self {
            Value::Nat(n) => ValueView::Nat(*n as nat),
            Value::Int(i) => ValueView::Int(*i as int),
            Value::Text(t) => ValueView::Text(t@),
            Value::Blob(b) => ValueView::Blob(b@),
        }
    }
}

/// A copy of `src`.
pub fn copy_bytes(src: &Vec<u8>) -> (out: Vec<u8>)
    ensures
        out@ == src@,
{
    let n = src.len();
    let mut out: Vec<u8> = Vec::new();
    let mut i: usize = 0;
    while i < n
        invariant
            i <= n,
            n == src@.len(),
            out@ == src@.take(i as int),
        decreases n - i,
    {
        out.push(src[i]);
        assert(out@ =~= src@.take(i + 1));
        i += 1;
    }
    assert(src@.take(n as int) =~= src@);
    out
}

/// The 32 bytes of `memo`.
pub fn memo_bytes(memo: &[u8; 32]) -> (out: Vec<u8>)
    ensures
        out@ == memo@,
{
    let mut out: Vec<u8> = Vec::new();
    let mut i: usize = 0;
    while i < 32
        invariant
            i <= 32,
            out@ == memo@.take(i as int),
        decreases 32 - i,
    {
        out.push(memo[i]);
        assert(out@ =~= memo@.take(i + 1));
        i += 1;
    }
    assert(memo@.take(32) =~= memo@);
    out
}

impl Value {
    /// A copy of the value.
    pub fn duplicate(&self) -> (r: Value)
        ensures
            r@ == self@,
    {
        match self {
            Value::Nat(n) => Value::Nat(*n),
            Value::Int(i) => Value::Int(*i),
            Value::Text(t) => Value::Text(t.clone()),
            Value::Blob(b) => Value::Blob(copy_bytes(b)),
        }
    }
}

/// One entry of an event's details: a key and its value.
#[derive(Clone, Debug, PartialEq, Eq)]
pub struct Detail {
    pub key: String,
    pub value: Value,
}

impl View for Detail {
    type V = (Seq<char>, ValueView);

    open spec fn view(&self) -> (Seq<char>, ValueView) {
        (self.key@, self.value@)
    }
}

impl Detail {
    /// A copy of the entry.
    pub fn duplicate(&self) -> (r: Detail)
        ensures
            r@ == self@,
    {
        Detail { key: self.key.clone(), value: self.value.duplicate() }
    }
}

/// What happened: who called, which operation, when, and the operation's
/// details, each key at most once.
#[derive(Clone, Debug, PartialEq, Eq)]
pub struct Event {
    pub caller: OwnerId,
    pub operation: String,
    pub time: u64,
    pub details: Vec<Detail>,
}

/// What an `Event` is.
pub struct EventView {
    pub caller: Seq<u8>,
    pub operation: Seq<char>,
    pub time: u64,
    pub details: Seq<(Seq<char>, ValueView)>,
}

/// What a list of details is.
pub open spec fn details_view(details: Seq<Detail>) -> Seq<(Seq<char>, ValueView)> {
    Seq::new(details.len(), |i: int| details[i]@)
}

impl View for Event {
    type V = EventView;

    open spec fn view(&self) -> EventView {
        EventView {
            caller: self.caller@,
            operation: self.operation@,
            time: self.time,
            details: details_view(self.details@),
        }
    }
}

impl Event {
    /// A copy of the event.
    pub fn duplicate(&self) -> (r: Event)
        ensures
            r@ == self@,
    {
        let n = self.details.len();
        let mut details: Vec<Detail> = Vec::new();
        let mut i: usize = 0;
        while i < n
            invariant
                i <= n,
                n == self.details@.len(),
                details@.len() == i,
                forall|j: int| 0 <= j < i ==> details@[j]@ == self.details@[j]@,
            decreases n - i,
        {
            details.push(self.details[i].duplicate());
            i += 1;
        }
        assert(details_view(details@) =~= details_view(self.details@));
        Event { caller: self.caller, operation: self.operation.clone(), time: self.time, details }
    }
}

/// Why an operation was rejected.
pub enum Rejection {
    NotFound,
    NotOwner,
    NotSelf,
    NotApproved,
    NotAllowed,
    MaxApprovals(nat),
    MaxCustodians(nat),
    TemporarilyUnavailable,
    Generic { code: nat, message: Seq<char> },
}

/// A condition that no other error kind covers.
#[derive(Clone, Debug, PartialEq, Eq)]
pub struct GenericError {
    pub error_code: u64,
    pub message: String,
}

impl GenericError {
    /// A copy of the error.
    pub fn duplicate(&self) -> (r: GenericError)
        ensures
            r.error_code == self.error_code,
            r.message@ == self.message@,
    {
        GenericError { error_code: self.error_code, message: self.message.clone() }
    }
}

/// The arguments of a transfer by the owner.
#[derive(Clone, Copy, Debug)]
pub struct TransferArgs {
    pub from_subaccount: Option<Subaccount>,
    pub to: Account,
    pub token_id: TokenId,
    pub memo: Option<[u8; 32]>,
    pub created_at_time: Option<u64>,
}

/// Why a transfer by the owner failed.
#[derive(Clone, Debug, PartialEq, Eq)]
pub enum TransferError {
    NotFound,
    NotOwner,
    NotSelf,
    TemporarilyUnavailable,
    GenericError(GenericError),
}

impl View for TransferError {
    type V = Rejection;

    open spec fn view(&self) -> Rejection {
        match self {
            TransferError::NotFound => Rejection::NotFound,
            TransferError::NotOwner => Rejection::NotOwner,
            TransferError::NotSelf => Rejection::NotSelf,
            TransferError::TemporarilyUnavailable => Rejection::TemporarilyUnavailable,
            TransferError::GenericError(e) => Rejection::Generic {
                code: e.error_code as nat,
                message: e.message@,
            },
        }
    }
}

/// A capability of the registry: the standard's name and where it is described.
#[derive(Clone, Debug, PartialEq, Eq)]
pub struct SupportedStandard {
    pub name: String,
    pub url: String,
}

/// The arguments of an approval.
#[derive(Clone, Copy, Debug)]
pub struct ApproveArgs {
    pub from_subaccount: Option<Subaccount>,
    pub spender: OwnerId,
    pub token_id: TokenId,
    pub approved: bool,
    pub memo: Option<[u8; 32]>,
    pub created_at_time: Option<u64>,
}

/// Why an approval failed.
#[derive(Clone, Debug, PartialEq, Eq)]
pub enum ApproveError {
    NotFound,
    NotOwner,
    NotSelf,
    MaxApprovals(u64),
    TemporarilyUnavailable,
    GenericError(GenericError),
}

impl View for ApproveError {
    type V = Rejection;

    open spec fn view(&self) -> Rejection {
        match self {
            ApproveError::NotFound => Rejection::NotFound,
            ApproveError::NotOwner => Rejection::NotOwner,
            ApproveError::NotSelf => Rejection::NotSelf,
            ApproveError::MaxApprovals(n) => Rejection::MaxApprovals(*n as nat),
            ApproveError::TemporarilyUnavailable => Rejection::TemporarilyUnavailable,
            ApproveError::GenericError(e) => Rejection::Generic {
                code: e.error_code as nat,
                message: e.message@,
            },
        }
    }
}

/// The arguments of a transfer on behalf of an account.
#[derive(Clone, Copy, Debug)]
pub struct TransferFromArgs {
    pub from: Account,
    pub to: Account,
    pub token_id: TokenId,
    pub memo: Option<[u8; 32]>,
    pub created_at_time: Option<u64>,
}

/// Why a transfer on behalf of an account failed.
#[derive(Clone, Debug, PartialEq, Eq)]
pub enum TransferFromError {
    NotFound,
    NotOwner,
    NotSelf,
    NotApproved,
    TemporarilyUnavailable,
    GenericError(GenericError),
}

impl View for TransferFromError {
    type V = Rejection;

    open spec fn view(&self) -> Rejection {
        match self {
            TransferFromError::NotFound => Rejection::NotFound,
            TransferFromError::NotOwner => Rejection::NotOwner,
            TransferFromError::NotSelf => Rejection::NotSelf,
            TransferFromError::NotApproved => Rejection::NotApproved,
            TransferFromError::TemporarilyUnavailable => Rejection::TemporarilyUnavailable,
            TransferFromError::GenericError(e) => Rejection::Generic {
                code: e.error_code as nat,
                message: e.message@,
            },
        }
    }
}

/// The error that a transfer by the owner reports for `e`: a caller that is
/// not approved becomes a generic error with code 403, every other error
/// stays what it is.
pub open spec fn as_transfer_rejection(e: Rejection) -> Rejection {
    match e {
        Rejection::NotApproved => Rejection::Generic {
            code: 403,
            message: "Caller is not approved"@,
        },
        other => other,
    }
}

impl TransferFromError {
    /// The same error, as a transfer by the owner reports it.
    pub fn to_transfer_error(&self) -> (r: TransferError)
        ensures
            r@ == as_transfer_rejection(self@),
    {
        match self {
            TransferFromError::NotFound => TransferError::NotFound,
            TransferFromError::NotOwner => TransferError::NotOwner,
            TransferFromError::NotSelf => TransferError::NotSelf,
            TransferFromError::NotApproved => TransferError::GenericError(
                GenericError { error_code: 403, message: "Caller is not approved".to_string() },
            ),
            TransferFromError::TemporarilyUnavailable => TransferError::TemporarilyUnavailable,
            TransferFromError::GenericError(e) => TransferError::GenericError(e.duplicate()),
        }
    }
}

/// The arguments of a change to the custodians.
#[derive(Clone, Copy, Debug)]
pub struct SetCustodianArgs {
    pub custodian: OwnerId,
    pub approved: bool,
}

/// Why a change to the custodians failed.
#[derive(Clone, Debug, PartialEq, Eq)]
pub enum SetCustodiansError {
    NotAllowed,
    MaxCustodians(u64),
    TemporarilyUnavailable,
    GenericError(GenericError),
}

impl View for SetCustodiansError {
    type V = Rejection;

    open spec fn view(&self) -> Rejection {
        match self {
            SetCustodiansError::NotAllowed => Rejection::NotAllowed,
            SetCustodiansError::MaxCustodians(n) => Rejection::MaxCustodians(*n as nat),
            SetCustodiansError::TemporarilyUnavailable => Rejection::TemporarilyUnavailable,
            SetCustodiansError::GenericError(e) => Rejection::Generic {
                code: e.error_code as nat,
                message: e.message@,
            },
        }
    }
}

/// Where a part of the history lies in durable memory.
#[derive(Clone, Copy, Debug, PartialEq, Eq, Structural)]
pub struct StoredAt {
    /// Offset of its first byte.
    pub offset: u64,
    /// Number of its bytes.
    pub len: u64,
}

/// An event, or where to fetch it.
#[derive(Clone, Debug, PartialEq, Eq)]
pub enum EventOrBucket {
    /// The event itself: it lies in the open block.
    Event(Event),
    /// The registry that holds the event.
    Bucket(OwnerId),
    /// The event's record in durable memory.
    Stored(StoredAt),
}

/// A block, or where to fetch it.
#[derive(Clone, Debug, PartialEq, Eq)]
pub enum BlockOrBucket {
    /// The events of the block: it is the open one.
    Block(Vec<Event>),
    /// The registry that holds the block.
    Bucket(OwnerId),
    /// The block's records in durable memory.
    Stored(StoredAt),
}

/// What a list of events is.
pub open spec fn events_view(events: Seq<Event>) -> Seq<EventView> {
    Seq::new(events.len(), |i: int| events[i]@)
}

/// What a list of owner ids is.
pub open spec fn ids_view(ids: Seq<OwnerId>) -> Seq<Seq<u8>> {
    Seq::new(ids.len(), |i: int| ids[i]@)
}

/// What the registry knows of a token.
#[derive(Clone, Debug)]
pub struct Token {
    /// Who owns it.
    pub account: Account,
    /// The last transaction that changed its owner or its approvals.
    pub tx_id: Offset,
    /// Who may transfer it on the owner's behalf: at most 256 ids.
    pub approved: IdSet,
}

/// What a `Token` is.
pub struct TokenView {
    pub account: AccountView,
    pub tx_id: Offset,
    pub approved: Set<Seq<u8>>,
}

impl Token {
    /// A copy of the token.
    pub fn duplicate(&self) -> (t: Token)
        ensures
            t@ == self@,
    {
        Token { account: self.account, tx_id: self.tx_id, approved: self.approved.duplicate() }
    }
}

impl View for Token {
    type V = TokenView;

    open spec fn view(&self) -> TokenView {
        TokenView {
            account: self.account@,
            tx_id: self.tx_id,
            approved: self.approved@,
        }
    }
}

} // verus!
