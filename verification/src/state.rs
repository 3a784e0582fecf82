//! The registry: who owns which token, who is approved for it, who the
//! custodians are, and the log of what happened.

use std::collections::HashMap;
use vstd::prelude::*;
use crate::history::{HistoryEntry, HistoryEntryView};
use crate::identity::{Account, OwnerId};
use crate::idset::IdSet;
use crate::model::{
    after_approve,
    after_set_custodian,
    after_transfer,
    approve_details,
    approve_event,
    approve_record,
    approve_rejection,
    block_bytes,
    committed,
    custodian_event,
    custodian_record,
    custodian_rejection,
    after_init,
    as_transfer_from,
    empty_ledger,
    lies_with,
    flushed,
    in_circulation,
    ledger_wf,
    open_block_id,
    page_of,
    threshold,
    token_or_unminted,
    tokens_where,
    transfer_details,
    transfer_event,
    transfer_record,
    transfer_rejection,
    tx_place,
    FlushView,
    LedgerView,
    TxPlace,
    DEFAULT_BLOCK_SIZE,
};
use crate::types::{
    as_transfer_rejection,
    ids_view,
    memo_bytes,
    ApproveArgs,
    ApproveError,
    BlockOrBucket,
    Detail,
    Event,
    EventOrBucket,
    EventView,
    GenericError,
    Offset,
    SetCustodianArgs,
    SetCustodiansError,
    StoredAt,
    SupportedStandard,
    Token,
    TokenId,
    TokenView,
    TransferArgs,
    TransferError,
    TransferFromArgs,
    TransferFromError,
    Value,
};

verus! {

/// An event of the open block, with its durable record.
#[derive(Clone, Debug, PartialEq, Eq)]
pub struct LogEntry {
    pub event: Event,
    pub record: HistoryEntry,
}

impl View for LogEntry {
    type V = (EventView, HistoryEntryView);

    open spec fn view(&self) -> (EventView, HistoryEntryView) {
        (self.event@, self.record@)
    }
}

/// Bytes for the host to write to durable memory at `offset`.
#[derive(Clone, Debug, PartialEq, Eq)]
pub struct Flush {
    pub offset: u64,
    pub bytes: Vec<u8>,
}

impl View for Flush {
    type V = FlushView;

    open spec fn view(&self) -> FlushView {
        FlushView { offset: self.offset as nat, bytes: self.bytes@ }
    }
}

/// What a list of log entries is.
pub open spec fn block_view(block: Seq<LogEntry>) -> Seq<(EventView, HistoryEntryView)> {
    Seq::new(block.len(), |i: int| block[i]@)
}

/// The events of a block, without their records.
pub open spec fn block_events(block: Seq<(EventView, HistoryEntryView)>) -> Seq<EventView> {
    Seq::new(block.len(), |i: int| block[i].0)
}

/// What a list of flushes is.
pub open spec fn outbox_view(outbox: Seq<Flush>) -> Seq<FlushView> {
    Seq::new(outbox.len(), |i: int| outbox[i]@)
}

/// What a map of tokens is.
pub open spec fn tokens_view(tokens: Map<TokenId, Token>) -> Map<TokenId, TokenView> {
    Map::new(|id: TokenId| tokens.contains_key(id), |id: TokenId| tokens[id]@)
}

/// The registry.
pub struct State {
    registry: OwnerId,
    name: String,
    symbol: String,
    tokens: HashMap<TokenId, Token>,
    order: Vec<TokenId>,
    current_block: Vec<LogEntry>,
    block_size: u32,
    outbox: Vec<Flush>,
    tx_total: Offset,
    custodians_tx: Offset,
    custodians: IdSet,
}

impl View for State {
    type V = LedgerView;

    closed spec fn view(&self) -> LedgerView {
        LedgerView {
            registry: self.registry@,
            name: self.name@,
            symbol: self.symbol@,
            tokens: tokens_view(self.tokens@),
            order: self.order@,
            custodians: self.custodians@,
            custodians_tx: self.custodians_tx,
            tx_total: self.tx_total as nat,
            block: block_view(self.current_block@),
            block_size: self.block_size as nat,
            outbox: outbox_view(self.outbox@),
        }
    }
}

impl State {
    /// Whether the registry is one that `new` and the operations make: it
    /// has all that holds of every registry.
    pub open spec fn wf(&self) -> bool {
        ledger_wf(self@)
    }

    /// The empty registry of the identity `registry`, whose blocks close at
    /// `block_size` events.
    pub fn with_block_size(registry: OwnerId, block_size: u32) -> (s: State)
        ensures
            s.wf(),
            s@ == empty_ledger(registry@, block_size as nat),
    {
        let s = State {
            registry,
            name: String::new(),
            symbol: String::new(),
            tokens: HashMap::new(),
            order: Vec::new(),
            current_block: Vec::new(),
            block_size,
            outbox: Vec::new(),
            tx_total: 0,
            custodians_tx: 0,
            custodians: IdSet::new(),
        };
        proof {
            assert(s@.tokens =~= Map::<TokenId, TokenView>::empty());
            assert(s@.block =~= Seq::<(EventView, HistoryEntryView)>::empty());
            assert(s@.outbox =~= Seq::<FlushView>::empty());
            assert(s@.order =~= Seq::<TokenId>::empty());
            assert(s@.custodians.finite() && s@.custodians.len() == 0);
            assert(flushed(s@) == 0);
            vstd::arithmetic::div_mod::lemma_small_mod(0, threshold(s@.block_size));
            assert(forall|id: TokenId| !s@.order.contains(id));
            assert(s@.order.no_duplicates());
            assert(ledger_wf(s@));
        }
        s
    }

    /// The empty registry of the identity `registry`, with blocks of the
    /// default size.
    pub fn new(registry: OwnerId) -> (s: State)
        ensures
            s.wf(),
            s@ == empty_ledger(registry@, DEFAULT_BLOCK_SIZE as nat),
    {
        State::with_block_size(registry, DEFAULT_BLOCK_SIZE)
    }

    /// The registry's own identity.
    pub fn registry(&self) -> (r: OwnerId)
        ensures
            r@ == self@.registry,
    {
        self.registry
    }

    /// The registry's name.
    pub fn name(&self) -> (r: &String)
        ensures
            r@ == self@.name,
    {
        &self.name
    }

    /// The registry's symbol.
    pub fn symbol(&self) -> (r: &String)
        ensures
            r@ == self@.symbol,
    {
        &self.symbol
    }

    /// Number of transactions so far.
    pub fn tx_total(&self) -> (n: Offset)
        ensures
            n == self@.tx_total,
    {
        self.tx_total
    }

    /// Number of events at which a block is closed.
    pub fn block_size(&self) -> (n: u32)
        ensures
            n == threshold(self@.block_size),
    {
        if self.block_size == 0 {
            1
        } else {
            self.block_size
        }
    }

    /// The custodians, each once.
    pub fn get_custodians(&self) -> (v: Vec<OwnerId>)
        ensures
            crate::types::ids_view(v@).to_set() == self@.custodians,
            crate::types::ids_view(v@).no_duplicates(),
    {
        self.custodians.to_vec()
    }
}

impl State {
    /// The records of the open block, one behind the other.
    fn encode_block(&self) -> (bytes: Vec<u8>)
        ensures
            bytes@ == block_bytes(self@.block),
    {
        let n = self.current_block.len();
        let mut bytes: Vec<u8> = Vec::new();
        let mut i: usize = 0;
        assert(self@.block.take(0) =~= Seq::<(EventView, HistoryEntryView)>::empty());
        while i < n
            invariant
                i <= n,
                n == self.current_block@.len(),
                bytes@ == block_bytes(self@.block.take(i as int)),
            decreases n - i,
        {
            let record = self.current_block[i].record.to_vec();
            let ghost before = bytes@;
            let mut j: usize = 0;
            while j < 78
                invariant
                    j <= 78,
                    record@.len() == 78,
                    bytes@ == before + record@.take(j as int),
                decreases 78 - j,
            {
                bytes.push(record[j]);
                assert(bytes@ =~= before + record@.take(j + 1));
                j += 1;
            }
            proof {
                assert(record@.take(78) =~= record@);
                let next = self@.block.take(i + 1);
                assert(next.drop_last() =~= self@.block.take(i as int));
                assert(next.last() == self@.block[i as int]);
            }
            i += 1;
        }
        assert(self@.block.take(n as int) =~= self@.block);
        bytes
    }

    /// Records `event` as the next transaction, with `record` as its durable
    /// form, and gives the transaction's id. Where the open block is full
    /// with it, the block is closed: its records are put in the outbox, to
    /// be written behind the records of all transactions before them.
    pub fn write_tx(&mut self, event: Event, record: HistoryEntry) -> (tx_id: Offset)
        requires
            old(self).wf(),
            old(self)@.tx_total < u32::MAX,
        ensures
            final(self).wf(),
            tx_id == old(self)@.tx_total,
            final(self)@ == committed(old(self)@, event@, record@),
    {
        let tx_id = self.tx_total;
        let ghost before = self@;
        self.current_block.push(LogEntry { event, record });
        self.tx_total = tx_id + 1;
        let limit: usize = if self.block_size == 0 {
            1
        } else {
            self.block_size as usize
        };
        proof {
            assert(self@.block =~= before.block.push((event@, record@)));
        }
        if self.current_block.len() >= limit {
            let bytes = self.encode_block();
            let first: u64 = (tx_id as u64 + 1) - self.current_block.len() as u64;
            let flush = Flush { offset: first * 78, bytes };
            let ghost outbox = self.outbox@;
            self.outbox.push(flush);
            self.current_block = Vec::new();
            proof {
                assert(self@.block =~= Seq::<(EventView, HistoryEntryView)>::empty());
                assert(outbox_view(self.outbox@) =~= outbox_view(outbox).push(flush@));
                let t = threshold(before.block_size) as int;
                assert(before.block.len() + 1 == t);
                assert(flushed(self@) == flushed(before) + t);
                vstd::arithmetic::div_mod::lemma_mod_add_multiples_vanish(flushed(before), t);
                assert(self@ == committed(before, event@, record@));
            }
        } else {
            proof {
                assert(self@ == committed(before, event@, record@));
            }
        }
        tx_id
    }

    /// The closed blocks that wait to be written to durable memory, oldest
    /// first.
    pub fn pending(&self) -> (waiting: &Vec<Flush>)
        ensures
            outbox_view(waiting@) == self@.outbox,
    {
        &self.outbox
    }

    /// Hands out the closed blocks that wait to be written to durable
    /// memory, oldest first, and keeps none of them.
    pub fn take_flushes(&mut self) -> (out: Vec<Flush>)
        requires
            old(self).wf(),
        ensures
            final(self).wf(),
            outbox_view(out@) == old(self)@.outbox,
            final(self)@ == (LedgerView { outbox: Seq::empty(), ..old(self)@ }),
    {
        let mut out: Vec<Flush> = Vec::new();
        std::mem::swap(&mut out, &mut self.outbox);
        proof {
            assert(outbox_view(self.outbox@) =~= Seq::<FlushView>::empty());
        }
        out
    }

    /// The event of transaction `tx_id`, where it lies in the open block;
    /// where its record lies in durable memory, where that is; and nothing
    /// where there is no such transaction yet.
    pub fn read_tx(&self, tx_id: Offset) -> (r: Option<EventOrBucket>)
        requires
            self.wf(),
        ensures
            match tx_place(self@, tx_id as int) {
                TxPlace::Nowhere => r is None,
                TxPlace::Open(i) => (r matches Some(EventOrBucket::Event(e)) && e@
                    == self@.block[i].0),
                TxPlace::Durable(offset) => (r matches Some(EventOrBucket::Stored(at))
                    && at.offset == offset && at.len == 78),
            },
    {
        if tx_id >= self.tx_total {
            return None;
        }
        let first: u32 = self.tx_total - self.current_block.len() as u32;
        if tx_id >= first {
            let i: usize = (tx_id - first) as usize;
            Some(EventOrBucket::Event(self.current_block[i].event.duplicate()))
        } else {
            Some(EventOrBucket::Stored(StoredAt { offset: tx_id as u64 * 78, len: 78 }))
        }
    }

    /// The events of block `block_id`, where it is the open block; where its
    /// records lie in durable memory, where it is closed; and nothing where
    /// there is no such block yet.
    pub fn read_block(&self, block_id: u32) -> (r: Option<BlockOrBucket>)
        requires
            self.wf(),
        ensures
            block_id > open_block_id(self@) ==> r is None,
            block_id == open_block_id(self@) ==> (r matches Some(BlockOrBucket::Block(events))
                && crate::types::events_view(events@) == block_events(self@.block)),
            block_id < open_block_id(self@) ==> (r matches Some(BlockOrBucket::Stored(at))
                && at.offset == block_id * threshold(self@.block_size) * 78 && at.len
                == threshold(self@.block_size) * 78),
    {
        let limit: u32 = self.block_size();
        let first: u32 = self.tx_total - self.current_block.len() as u32;
        let open: u32 = first / limit;
        if block_id > open {
            None
        } else if block_id == open {
            let n = self.current_block.len();
            let mut events: Vec<Event> = Vec::new();
            let mut i: usize = 0;
            while i < n
                invariant
                    i <= n,
                    n == self.current_block@.len(),
                    events@.len() == i,
                    forall|j: int| 0 <= j < i ==> events@[j]@ == self.current_block@[j].event@,
                decreases n - i,
            {
                events.push(self.current_block[i].event.duplicate());
                i += 1;
            }
            assert(crate::types::events_view(events@) =~= block_events(self@.block));
            Some(BlockOrBucket::Block(events))
        } else {
            proof {
                vstd::arithmetic::div_mod::lemma_fundamental_div_mod(first as int, limit as int);
                vstd::arithmetic::mul::lemma_mul_inequality(
                    block_id as int,
                    open as int,
                    limit as int,
                );
                vstd::arithmetic::mul::lemma_mul_is_commutative(open as int, limit as int);
            }
            let start: u64 = block_id as u64 * limit as u64;
            Some(BlockOrBucket::Stored(StoredAt { offset: start * 78, len: limit as u64 * 78 }))
        }
    }
}

impl State {
    /// Changes who the custodians are: adds `args.custodian` where
    /// `args.approved` is true, else removes it, which changes nothing where
    /// it is none. Only a custodian may do so, and no more than 256 are kept.
    /// A change that is made is recorded as the next transaction, whose id is
    /// returned; a change that is rejected leaves the registry as it is.
    pub fn set_custodian(&mut self, caller: OwnerId, now: u64, args: SetCustodianArgs) -> (r: Result<
        Offset,
        SetCustodiansError,
    >)
        requires
            old(self).wf(),
            old(self)@.tx_total < u32::MAX,
        ensures
            final(self).wf(),
            match custodian_rejection(old(self)@, caller@, args) {
                Some(e) => r is Err && r->Err_0@ == e && final(self)@ == old(self)@,
                None => r == Ok::<Offset, SetCustodiansError>(old(self)@.tx_total as Offset)
                    && final(self)@ == after_set_custodian(old(self)@, caller@, now, args),
            },
    {
        let ghost before = self@;
        if !self.custodians.contains(&caller) {
            return Err(SetCustodiansError::NotAllowed);
        }
        if args.approved {
            if self.custodians.len() == 256 {
                return Err(SetCustodiansError::MaxCustodians(256));
            }
            self.custodians.insert(args.custodian);
        } else {
            self.custodians.remove(&args.custodian);
        }
        let text = args.custodian.to_text();
        let mut details: Vec<Detail> = Vec::new();
        details.push(Detail { key: "custodian".to_string(), value: Value::Text(text) });
        details.push(
            Detail {
                key: "approved".to_string(),
                value: Value::Nat(
                    if args.approved {
                        1
                    } else {
                        0
                    },
                ),
            },
        );
        details.push(
            Detail { key: "from_tx".to_string(), value: Value::Nat(self.custodians_tx as u64) },
        );
        let event = Event {
            caller,
            operation: "sld4:set_custodian".to_string(),
            time: now,
            details,
        };
        let record = HistoryEntry {
            token_id: 0,
            account: Account { owner: args.custodian, subaccount: None },
            time: now,
            from_offset: self.custodians_tx,
        };
        proof {
            assert(event@.details =~= custodian_event(before, caller@, now, args).details);
            assert(event@ == custodian_event(before, caller@, now, args));
            assert(record@ == custodian_record(before, now, args));
        }
        proof {
            vstd::set::axiom_set_insert_len(before.custodians, args.custodian@);
            vstd::set::axiom_set_remove_len(before.custodians, args.custodian@);
            vstd::set::axiom_set_insert_finite(before.custodians, args.custodian@);
            vstd::set::axiom_set_remove_finite(before.custodians, args.custodian@);
            assert(self@.custodians.finite());
            assert(self@.custodians.len() <= 256);
            assert(self@.tokens == before.tokens);
            assert(self@.order == before.order);
            assert(ledger_wf(self@));
        }
        let tx_id = self.write_tx(event, record);
        self.custodians_tx = tx_id;
        proof {
            assert(self@ == after_set_custodian(before, caller@, now, args));
            assert(ledger_wf(self@));
        }
        Ok(tx_id)
    }

    /// Names the registry and makes `custodian` its only custodian. The
    /// custodian's own addition is recorded as the next transaction, with the
    /// custodian as the caller.
    pub fn init(&mut self, name: String, symbol: String, custodian: OwnerId, now: u64)
        requires
            old(self).wf(),
            old(self)@.tx_total < u32::MAX,
        ensures
            final(self).wf(),
            final(self)@ == after_init(old(self)@, name@, symbol@, custodian, now),
    {
        self.name = name;
        self.symbol = symbol;
        let mut custodians = IdSet::new();
        custodians.insert(custodian);
        self.custodians = custodians;
        let ghost named = self@;
        proof {
            assert(named.custodians.contains(custodian@));
            assert(named.custodians.finite());
            assert(named.custodians.len() == 1);
            assert(named.custodians.insert(custodian@) =~= named.custodians);
            assert(named.tokens == old(self)@.tokens);
            assert(named.order == old(self)@.order);
            assert(named.block == old(self)@.block);
            assert(named.tx_total == old(self)@.tx_total);
            assert(ledger_wf(named));
        }
        let r = self.set_custodian(custodian, now, SetCustodianArgs { custodian, approved: true });
        assert(r is Ok);
    }

    /// Who may transfer token `args.token_id` on its owner's behalf: adds
    /// `args.spender` where `args.approved` is true, else removes it, which
    /// changes nothing where it is not approved. Only the token's owner may do
    /// so, not for itself, and no more than 256 ids are approved for a token.
    /// A change that is made is recorded as the next transaction, whose id is
    /// returned; a change that is rejected leaves the registry as it is.
    pub fn approve(&mut self, caller: OwnerId, now: u64, args: ApproveArgs) -> (r: Result<
        Offset,
        ApproveError,
    >)
        requires
            old(self).wf(),
            old(self)@.tx_total < u32::MAX,
        ensures
            final(self).wf(),
            match approve_rejection(old(self)@, caller@, args) {
                Some(e) => r is Err && r->Err_0@ == e && final(self)@ == old(self)@,
                None => r == Ok::<Offset, ApproveError>(old(self)@.tx_total as Offset) && final(self)@ == after_approve(old(self)@, caller@, now, args),
            },
    {
        broadcast use vstd::std_specs::hash::group_hash_axioms;

        let ghost before = self@;
        if args.spender == caller {
            return Err(ApproveError::NotSelf);
        }
        let mut token = match self.tokens.get(&args.token_id) {
            Some(t) => t.duplicate(),
            None => {
                return Err(ApproveError::NotFound);
            },
        };
        assert(token@ == before.tokens[args.token_id]);
        let from = Account::new(caller, args.from_subaccount);
        if !(from == token.account) {
            return Err(ApproveError::NotOwner);
        }
        if args.approved {
            if token.approved.len() == 256 {
                return Err(ApproveError::MaxApprovals(256));
            }
            token.approved.insert(args.spender);
        } else {
            token.approved.remove(&args.spender);
        }
        let text = args.spender.to_text();
        let mut details: Vec<Detail> = Vec::new();
        details.push(Detail { key: "token_id".to_string(), value: Value::Nat(args.token_id as u64) });
        details.push(Detail { key: "spender".to_string(), value: Value::Text(text) });
        details.push(
            Detail {
                key: "approved".to_string(),
                value: Value::Nat(
                    if args.approved {
                        1
                    } else {
                        0
                    },
                ),
            },
        );
        details.push(Detail { key: "from_tx".to_string(), value: Value::Nat(token.tx_id as u64) });
        if let Some(memo) = args.memo {
            details.push(Detail { key: "memo".to_string(), value: Value::Blob(memo_bytes(&memo)) });
        }
        if let Some(created_at_time) = args.created_at_time {
            details.push(Detail { key: "time".to_string(), value: Value::Nat(created_at_time) });
        }
        let event = Event { caller, operation: "sld2:approve".to_string(), time: now, details };
        let record = HistoryEntry {
            token_id: args.token_id,
            account: token.account,
            time: now,
            from_offset: token.tx_id,
        };
        proof {
            assert(event@.details =~= approve_details(before.tokens[args.token_id].tx_id, args));
            assert(event@ == approve_event(before, caller@, now, args));
            assert(record@ == approve_record(before, now, args));
        }
        let tx_id = self.write_tx(event, record);
        let ghost logged = self@;
        token.tx_id = tx_id;
        let ghost changed = token@;
        self.tokens.insert(args.token_id, token);
        proof {
            assert(self@.tokens =~= logged.tokens.insert(args.token_id, changed));
            assert(self@ == after_approve(before, caller@, now, args));
            assert(ledger_wf(self@));
        }
        Ok(tx_id)
    }

    /// Moves token `args.token_id` from `args.from` to `args.to`. A custodian
    /// mints a token that does not exist yet by moving it, and burns a token
    /// by moving it to the minter. A transfer that is made clears the token's
    /// approvals and is recorded as the next transaction, whose id is
    /// returned; a transfer that is rejected leaves the registry as it is.
    pub fn transfer_from(&mut self, caller: OwnerId, now: u64, args: TransferFromArgs) -> (r: Result<
        Offset,
        TransferFromError,
    >)
        requires
            old(self).wf(),
            old(self)@.tx_total < u32::MAX,
        ensures
            final(self).wf(),
            match transfer_rejection(old(self)@, caller@, args) {
                Some(e) => r is Err && r->Err_0@ == e && final(self)@ == old(self)@,
                None => r == Ok::<Offset, TransferFromError>(old(self)@.tx_total as Offset)
                    && final(self)@ == after_transfer(old(self)@, caller@, now, args),
            },
    {
        broadcast use vstd::std_specs::hash::group_hash_axioms;

        let ghost before = self@;
        let minter = Account::minter(self.registry);
        let caller_is_custodian = self.custodians.contains(&caller);
        let transfer_is_burn = args.to == minter;
        let found = match self.tokens.get(&args.token_id) {
            Some(t) => Some(t.duplicate()),
            None => None,
        };
        let transfer_is_mint = found.is_none();
        let token = match found {
            Some(t) => t,
            None => {
                if !caller_is_custodian {
                    return Err(TransferFromError::NotFound);
                }
                Token { account: minter, tx_id: 0, approved: IdSet::new() }
            },
        };
        assert(token@ == token_or_unminted(before, args.token_id));
        let caller_is_from = args.from.owner == caller;
        let from_is_owner = token.account == args.from || (caller_is_custodian && token.account
            == minter);
        let caller_is_approved = token.approved.contains(&caller);
        if !from_is_owner {
            return Err(TransferFromError::NotOwner);
        }
        if transfer_is_burn && !caller_is_custodian {
            return Err(
                TransferFromError::GenericError(
                    GenericError { error_code: 403, message: "Caller is not custodian".to_string() },
                ),
            );
        }
        if !caller_is_from && !caller_is_approved {
            return Err(TransferFromError::NotApproved);
        }
        if args.to == token.account {
            return Err(TransferFromError::NotSelf);
        }
        let operation = if transfer_is_mint {
            "sld1:mint".to_string()
        } else if transfer_is_burn {
            "sld1:burn".to_string()
        } else if caller_is_from {
            "sld1:transfer".to_string()
        } else {
            "sld2:transfer_from".to_string()
        };
        let time = match args.created_at_time {
            Some(t) => t,
            None => now,
        };
        let mut details: Vec<Detail> = Vec::new();
        details.push(Detail { key: "token_id".to_string(), value: Value::Nat(args.token_id as u64) });
        details.push(Detail { key: "time".to_string(), value: Value::Nat(time) });
        details.push(Detail { key: "from_tx".to_string(), value: Value::Nat(token.tx_id as u64) });
        if let Some(memo) = args.memo {
            details.push(Detail { key: "memo".to_string(), value: Value::Blob(memo_bytes(&memo)) });
        }
        let event = Event { caller, operation, time: now, details };
        let to = Account::new(args.to.owner, args.to.subaccount);
        let record = HistoryEntry {
            token_id: args.token_id,
            account: to,
            time: now,
            from_offset: token.tx_id,
        };
        proof {
            assert(event@.details =~= transfer_details(
                args.token_id,
                now,
                token@.tx_id,
                args.memo,
                args.created_at_time,
            ));
            assert(event@ == transfer_event(before, caller@, now, args));
            assert(record@ == transfer_record(before, now, args));
        }
        let tx_id = self.write_tx(event, record);
        let ghost logged = self@;
        let moved = Token { account: to, tx_id, approved: IdSet::new() };
        let ghost moved_view = moved@;
        self.tokens.insert(args.token_id, moved);
        if transfer_is_mint {
            self.order.push(args.token_id);
        }
        proof {
            assert(self@.tokens =~= logged.tokens.insert(args.token_id, moved_view));
            if transfer_is_mint {
                assert(!logged.order.contains(args.token_id));
                assert(self@.order == logged.order.push(args.token_id));
                assert forall|id: TokenId| self@.tokens.contains_key(id) <==> self@.order.contains(
                    id,
                ) by {
                    if self@.order.contains(id) {
                        let i = choose|i: int| 0 <= i < self@.order.len() && self@.order[i] == id;
                        if i < logged.order.len() {
                            assert(logged.order[i] == id);
                            assert(logged.order.contains(id));
                        }
                    }
                    if logged.order.contains(id) {
                        let i = choose|i: int|
                            0 <= i < logged.order.len() && logged.order[i] == id;
                        assert(self@.order[i] == id);
                    }
                    if id == args.token_id {
                        assert(self@.order[logged.order.len() as int] == id);
                    }
                }
                assert(self@.order.no_duplicates()) by {
                    assert forall|a: int, b: int|
                        0 <= a < self@.order.len() && 0 <= b < self@.order.len() && a
                            != b implies self@.order[a] != self@.order[b] by {
                        if a < logged.order.len() {
                            assert(logged.order.contains(logged.order[a]));
                        }
                        if b < logged.order.len() {
                            assert(logged.order.contains(logged.order[b]));
                        }
                    }
                }
            }
            assert(self@ == after_transfer(before, caller@, now, args));
            assert(ledger_wf(self@));
        }
        Ok(tx_id)
    }

    /// Moves token `args.token_id` from the caller's account, with the
    /// subaccount given, to `args.to`: a transfer on behalf in which the
    /// caller is the source. A caller that is not approved is told so by a
    /// generic error with code 403.
    pub fn transfer(&mut self, caller: OwnerId, now: u64, args: TransferArgs) -> (r: Result<
        Offset,
        TransferError,
    >)
        requires
            old(self).wf(),
            old(self)@.tx_total < u32::MAX,
        ensures
            final(self).wf(),
            match transfer_rejection(old(self)@, caller@, as_transfer_from(caller, args)) {
                Some(e) => r is Err && r->Err_0@ == as_transfer_rejection(e) && final(self)@
                    == old(self)@,
                None => r == Ok::<Offset, TransferError>(old(self)@.tx_total as Offset) && final(self)@ == after_transfer(old(self)@, caller@, now, as_transfer_from(caller, args)),
            },
    {
        let full = TransferFromArgs {
            from: Account::new(caller, args.from_subaccount),
            to: Account::new(args.to.owner, args.to.subaccount),
            token_id: args.token_id,
            memo: args.memo,
            created_at_time: args.created_at_time,
        };
        match self.transfer_from(caller, now, full) {
            Ok(tx_id) => Ok(tx_id),
            Err(e) => Err(e.to_transfer_error()),
        }
    }
}

proof fn lemma_filter_next(s: Seq<TokenId>, i: int, pred: spec_fn(TokenId) -> bool)
    requires
        0 <= i < s.len(),
    ensures
        s.take(i + 1).filter(pred) == if pred(s[i]) {
            s.take(i).filter(pred).push(s[i])
        } else {
            s.take(i).filter(pred)
        },
{
    reveal(Seq::filter);
    assert(s.take(i + 1).drop_last() =~= s.take(i));
}

/// Page number `page` of `ids`.
fn page_from(ids: &Vec<TokenId>, page: u64) -> (out: Vec<TokenId>)
    ensures
        out@ == page_of(ids@, page as nat),
{
    let n = ids.len();
    let mut out: Vec<TokenId> = Vec::new();
    let start: u64 = match page.checked_mul(100_000) {
        Some(start) => start,
        None => {
            return out;
        },
    };
    if start >= n as u64 {
        return out;
    }
    let end: u64 = if n as u64 - start <= 100_000 {
        n as u64
    } else {
        start + 100_000
    };
    let first: usize = start as usize;
    let last: usize = end as usize;
    let mut i: usize = first;
    while i < last
        invariant
            first <= i <= last <= n,
            n == ids@.len(),
            out@ == ids@.subrange(first as int, i as int),
        decreases last - i,
    {
        out.push(ids[i]);
        assert(out@ =~= ids@.subrange(first as int, i + 1));
        i += 1;
    }
    out
}

impl State {
    /// The ids, in the order of tokens, of those that lie with `account`
    /// (`held` is true) or with anyone else (`held` is false).
    fn select(&self, account: &Account, held: bool) -> (out: Vec<TokenId>)
        requires
            self.wf(),
        ensures
            out@ == tokens_where(self@, account@, held),
    {
        broadcast use vstd::std_specs::hash::group_hash_axioms;

        let n = self.order.len();
        let ghost pred = lies_with(self@.tokens, account@, held);
        let mut out: Vec<TokenId> = Vec::new();
        let mut i: usize = 0;
        assert(self.order@.take(0).filter(pred) =~= Seq::<TokenId>::empty()) by {
            reveal(Seq::filter);
        }
        while i < n
            invariant
                i <= n,
                n == self.order@.len(),
                self.wf(),
                pred == lies_with(self@.tokens, account@, held),
                out@ == self.order@.take(i as int).filter(pred),
            decreases n - i,
        {
            let id = self.order[i];
            proof {
                assert(self@.order.contains(id));
                lemma_filter_next(self.order@, i as int, pred);
            }
            match self.tokens.get(&id) {
                Some(token) => {
                    if (token.account == *account) == held {
                        out.push(id);
                    }
                },
                None => {},
            }
            i += 1;
        }
        assert(self.order@.take(n as int) =~= self.order@);
        out
    }

    /// Number of tokens in circulation: those that do not lie with the
    /// minter.
    pub fn total_supply(&self) -> (n: u64)
        requires
            self.wf(),
        ensures
            n == in_circulation(self@).len(),
    {
        let minter = Account::minter(self.registry);
        self.select(&minter, false).len() as u64
    }

    /// Number of tokens that lie with `account`.
    pub fn balance_of(&self, account: &Account) -> (n: u64)
        requires
            self.wf(),
        ensures
            n == tokens_where(self@, account@, true).len(),
    {
        self.select(account, true).len() as u64
    }

    /// The ids of all tokens, in the order in which they came to exist.
    pub fn token_ids(&self) -> (ids: Vec<TokenId>)
        ensures
            ids@ == self@.order,
    {
        let n = self.order.len();
        let mut ids: Vec<TokenId> = Vec::new();
        let mut i: usize = 0;
        while i < n
            invariant
                i <= n,
                n == self.order@.len(),
                ids@ == self.order@.take(i as int),
            decreases n - i,
        {
            ids.push(self.order[i]);
            assert(ids@ =~= self.order@.take(i + 1));
            i += 1;
        }
        assert(self.order@.take(n as int) =~= self.order@);
        ids
    }

    /// What the registry knows of token `token_id`, if the token exists.
    pub fn token(&self, token_id: TokenId) -> (r: Option<Token>)
        ensures
            self@.tokens.contains_key(token_id) ==> r is Some && r->Some_0@
                == self@.tokens[token_id],
            !self@.tokens.contains_key(token_id) ==> r is None,
    {
        broadcast use vstd::std_specs::hash::group_hash_axioms;

        match self.tokens.get(&token_id) {
            Some(token) => Some(token.duplicate()),
            None => None,
        }
    }

    /// The account that token `token_id` lies with, if the token exists.
    pub fn owner_of(&self, token_id: TokenId) -> (r: Option<Account>)
        ensures
            self@.tokens.contains_key(token_id) ==> r is Some && r->Some_0@
                == self@.tokens[token_id].account,
            !self@.tokens.contains_key(token_id) ==> r is None,
    {
        broadcast use vstd::std_specs::hash::group_hash_axioms;

        match self.tokens.get(&token_id) {
            Some(token) => Some(token.account),
            None => None,
        }
    }

    /// Page number `page` of the ids of the tokens in circulation, in the
    /// order in which the tokens came to exist. A page has 100,000 ids, the
    /// last one as many as are left, and every page beyond it is empty.
    pub fn tokens(&self, page: u64) -> (out: Vec<TokenId>)
        requires
            self.wf(),
        ensures
            out@ == page_of(in_circulation(self@), page as nat),
    {
        let minter = Account::minter(self.registry);
        let all = self.select(&minter, false);
        page_from(&all, page)
    }

    /// Page number `page` of the ids of the tokens that lie with `account`,
    /// in the order in which the tokens came to exist.
    pub fn tokens_of(&self, account: &Account, page: u64) -> (out: Vec<TokenId>)
        requires
            self.wf(),
        ensures
            out@ == page_of(tokens_where(self@, account@, true), page as nat),
    {
        let all = self.select(account, true);
        page_from(&all, page)
    }

    /// The ids approved for token `token_id`, each once; none where the
    /// token does not exist.
    pub fn get_approved(&self, token_id: TokenId) -> (v: Vec<OwnerId>)
        ensures
            ids_view(v@).no_duplicates(),
            self@.tokens.contains_key(token_id) ==> ids_view(v@).to_set()
                == self@.tokens[token_id].approved,
            !self@.tokens.contains_key(token_id) ==> v@.len() == 0,
    {
        broadcast use vstd::std_specs::hash::group_hash_axioms;

        match self.tokens.get(&token_id) {
            Some(token) => token.approved.to_vec(),
            None => {
                let v: Vec<OwnerId> = Vec::new();
                assert(ids_view(v@).no_duplicates());
                v
            },
        }
    }

    /// The registry's metadata: it has none.
    pub fn metadata(&self) -> (r: Vec<Detail>)
        ensures
            r@.len() == 0,
    {
        Vec::new()
    }
}

/// What a list of standards is: names and urls.
pub open spec fn standards_view(v: Seq<SupportedStandard>) -> Seq<(Seq<char>, Seq<char>)> {
    Seq::new(v.len(), |i: int| (v[i].name@, v[i].url@))
}

/// The standards that the registry supports, with the place where they are
/// described.
pub fn supported_standards() -> (v: Vec<SupportedStandard>)
    ensures
        standards_view(v@) == seq![
            ("SLD-1"@, "https://github.com/slide-computer/slide-token"@),
            ("SLD-2"@, "https://github.com/slide-computer/slide-token"@),
            ("SLD-3"@, "https://github.com/slide-computer/slide-token"@),
            ("SLD-4"@, "https://github.com/slide-computer/slide-token"@),
        ],
{
    let mut v: Vec<SupportedStandard> = Vec::new();
    v.push(
        SupportedStandard {
            name: "SLD-1".to_string(),
            url: "https://github.com/slide-computer/slide-token".to_string(),
        },
    );
    v.push(
        SupportedStandard {
            name: "SLD-2".to_string(),
            url: "https://github.com/slide-computer/slide-token".to_string(),
        },
    );
    v.push(
        SupportedStandard {
            name: "SLD-3".to_string(),
            url: "https://github.com/slide-computer/slide-token".to_string(),
        },
    );
    v.push(
        SupportedStandard {
            name: "SLD-4".to_string(),
            url: "https://github.com/slide-computer/slide-token".to_string(),
        },
    );
    assert(standards_view(v@) =~= seq![
        ("SLD-1"@, "https://github.com/slide-computer/slide-token"@),
        ("SLD-2"@, "https://github.com/slide-computer/slide-token"@),
        ("SLD-3"@, "https://github.com/slide-computer/slide-token"@),
        ("SLD-4"@, "https://github.com/slide-computer/slide-token"@),
    ]);
    v
}

/// What the registry knows of one token, as plain values.
#[derive(Clone, Debug, PartialEq, Eq)]
pub struct TokenRecord {
    pub token_id: TokenId,
    pub account: Account,
    pub tx_id: Offset,
    pub approved: Vec<OwnerId>,
}

impl View for TokenRecord {
    type V = TokenView;

    open spec fn view(&self) -> TokenView {
        TokenView {
            account: self.account@,
            tx_id: self.tx_id,
            approved: ids_view(self.approved@).to_set(),
        }
    }
}

/// The registry as plain values, for the host to keep while the registry
/// does not run.
#[derive(Clone, Debug, PartialEq, Eq)]
pub struct Snapshot {
    pub registry: OwnerId,
    pub name: String,
    pub symbol: String,
    /// The tokens, in the order in which they came to exist.
    pub tokens: Vec<TokenRecord>,
    pub current_block: Vec<LogEntry>,
    pub block_size: u32,
    pub outbox: Vec<Flush>,
    pub tx_total: Offset,
    pub custodians_tx: Offset,
    pub custodians: Vec<OwnerId>,
}

/// The ids of token records, in their order.
pub open spec fn record_ids(records: Seq<TokenRecord>) -> Seq<TokenId> {
    Seq::new(records.len(), |i: int| records[i].token_id)
}

/// The tokens that token records tell of.
pub open spec fn records_map(records: Seq<TokenRecord>) -> Map<TokenId, TokenView>
    decreases records.len(),
{
    if records.len() == 0 {
        Map::empty()
    } else {
        records_map(records.drop_last()).insert(records.last().token_id, records.last()@)
    }
}

impl View for Snapshot {
    type V = LedgerView;

    open spec fn view(&self) -> LedgerView {
        LedgerView {
            registry: self.registry@,
            name: self.name@,
            symbol: self.symbol@,
            tokens: records_map(self.tokens@),
            order: record_ids(self.tokens@),
            custodians: ids_view(self.custodians@).to_set(),
            custodians_tx: self.custodians_tx,
            tx_total: self.tx_total as nat,
            block: block_view(self.current_block@),
            block_size: self.block_size as nat,
            outbox: outbox_view(self.outbox@),
        }
    }
}

/// Whether a snapshot is one of a registry: no token, no approved id and no
/// custodian occurs twice; no token has more than 256 approved ids, and
/// there are no more than 256 custodians; the last transactions of the
/// tokens and of the custodians were made; the open block is not full, and
/// the transactions before it fill whole blocks.
pub open spec fn snapshot_ok(snap: Snapshot) -> bool {
    &&& record_ids(snap.tokens@).no_duplicates()
    &&& forall|i: int|
        0 <= i < snap.tokens@.len() ==> ids_view((#[trigger] snap.tokens@[i]).approved@).no_duplicates()
            && snap.tokens@[i].approved@.len() <= 256
    &&& forall|i: int|
        0 <= i < snap.tokens@.len() ==> (#[trigger] snap.tokens@[i]).tx_id < snap.tx_total
    &&& ids_view(snap.custodians@).no_duplicates()
    &&& snap.custodians@.len() <= 256
    &&& snap.custodians_tx == 0 || snap.custodians_tx < snap.tx_total
    &&& snap.current_block@.len() < threshold(snap.block_size as nat)
    &&& snap.current_block@.len() <= snap.tx_total
    &&& (snap.tx_total - snap.current_block@.len()) % (threshold(snap.block_size as nat) as int)
        == 0
}

proof fn lemma_records_map_dom(records: Seq<TokenRecord>)
    ensures
        forall|id: TokenId|
            records_map(records).contains_key(id) <==> record_ids(records).contains(id),
    decreases records.len(),
{
    if records.len() > 0 {
        let init = records.drop_last();
        lemma_records_map_dom(init);
        assert forall|id: TokenId|
            records_map(records).contains_key(id) <==> record_ids(records).contains(id) by {
            if record_ids(records).contains(id) {
                let i = choose|i: int| 0 <= i < records.len() && record_ids(records)[i] == id;
                if i < init.len() {
                    assert(record_ids(init)[i] == id);
                    assert(record_ids(init).contains(id));
                }
            }
            if record_ids(init).contains(id) {
                let i = choose|i: int| 0 <= i < init.len() && record_ids(init)[i] == id;
                assert(record_ids(records)[i] == id);
            }
            if id == records.last().token_id {
                assert(record_ids(records)[records.len() - 1] == id);
            }
        }
    }
}

impl State {
    /// The registry as plain values.
    pub fn snapshot(&self) -> (snap: Snapshot)
        requires
            self.wf(),
        ensures
            snap@ == self@,
            snapshot_ok(snap),
    {
        broadcast use vstd::std_specs::hash::group_hash_axioms;

        let n = self.order.len();
        let mut tokens: Vec<TokenRecord> = Vec::new();
        let mut i: usize = 0;
        proof {
            assert(record_ids(tokens@) =~= self.order@.take(0));
            assert(records_map(tokens@) =~= self@.tokens.restrict(self.order@.take(0).to_set()));
        }
        while i < n
            invariant
                i <= n,
                n == self.order@.len(),
                self.wf(),
                record_ids(tokens@) == self.order@.take(i as int),
                records_map(tokens@) == self@.tokens.restrict(self.order@.take(i as int).to_set()),
                forall|j: int|
                    0 <= j < tokens@.len() ==> ids_view(
                        (#[trigger] tokens@[j]).approved@,
                    ).no_duplicates() && tokens@[j].approved@.len() <= 256 && tokens@[j].tx_id
                        < self.tx_total,
            decreases n - i,
        {
            let id = self.order[i];
            assert(self@.order.contains(id));
            assert(self@.tokens.contains_key(id));
            assert(self.tokens@.contains_key(id));
            let ghost before = tokens@;
            match self.tokens.get(&id) {
                Some(token) => {
                    let record = TokenRecord {
                        token_id: id,
                        account: token.account,
                        tx_id: token.tx_id,
                        approved: token.approved.to_vec(),
                    };
                    assert(record@ == self@.tokens[id]);
                    tokens.push(record);
                    proof {
                        let seen = self.order@.take(i as int);
                        let next = self.order@.take(i + 1);
                        assert(tokens@.drop_last() =~= before);
                        assert(tokens@.last() == record);
                        assert(next =~= seen.push(id));
                        assert(record_ids(tokens@) =~= record_ids(before).push(id));
                        assert forall|k: TokenId|
                            next.to_set().contains(k) <==> seen.to_set().insert(id).contains(
                                k,
                            ) by {
                            if next.contains(k) {
                                let j = choose|j: int| 0 <= j < next.len() && next[j] == k;
                                if j < seen.len() {
                                    assert(seen[j] == k);
                                    assert(seen.contains(k));
                                }
                            }
                            if seen.contains(k) {
                                let j = choose|j: int| 0 <= j < seen.len() && seen[j] == k;
                                assert(next[j] == k);
                            }
                            if k == id {
                                assert(next[i as int] == k);
                            }
                        }
                        assert(next.to_set() =~= seen.to_set().insert(id));
                        assert(records_map(tokens@) =~= self@.tokens.restrict(next.to_set()));
                    }
                },
                None => {
                    assert(false);
                },
            }
            i += 1;
        }
        proof {
            assert(self.order@.take(n as int) =~= self.order@);
            assert(self@.tokens.restrict(self.order@.to_set()) =~= self@.tokens);
        }
        let held = self.current_block.len();
        let mut current_block: Vec<LogEntry> = Vec::new();
        let mut j: usize = 0;
        while j < held
            invariant
                j <= held,
                held == self.current_block@.len(),
                current_block@.len() == j,
                forall|k: int| 0 <= k < j ==> current_block@[k]@ == self.current_block@[k]@,
            decreases held - j,
        {
            current_block.push(
                LogEntry {
                    event: self.current_block[j].event.duplicate(),
                    record: self.current_block[j].record,
                },
            );
            j += 1;
        }
        let waiting = self.outbox.len();
        let mut outbox: Vec<Flush> = Vec::new();
        let mut k: usize = 0;
        while k < waiting
            invariant
                k <= waiting,
                waiting == self.outbox@.len(),
                outbox@.len() == k,
                forall|m: int| 0 <= m < k ==> outbox@[m]@ == self.outbox@[m]@,
            decreases waiting - k,
        {
            outbox.push(
                Flush {
                    offset: self.outbox[k].offset,
                    bytes: crate::types::copy_bytes(&self.outbox[k].bytes),
                },
            );
            k += 1;
        }
        let custodians = self.custodians.to_vec();
        let snap = Snapshot {
            registry: self.registry,
            name: self.name.clone(),
            symbol: self.symbol.clone(),
            tokens,
            current_block,
            block_size: self.block_size,
            outbox,
            tx_total: self.tx_total,
            custodians_tx: self.custodians_tx,
            custodians,
        };
        proof {
            assert(snap@.block =~= self@.block);
            assert(snap@.outbox =~= self@.outbox);
            assert(snap@ == self@);
        }
        snap
    }

    /// The registry that a snapshot tells of; nothing where the snapshot is
    /// not one of a registry.
    pub fn restore(snap: Snapshot) -> (r: Option<State>)
        ensures
            snapshot_ok(snap) ==> r is Some && r->Some_0.wf() && r->Some_0@ == snap@,
            !snapshot_ok(snap) ==> r is None,
    {
        broadcast use vstd::std_specs::hash::group_hash_axioms;

        let custodians = match IdSet::from_vec(&snap.custodians) {
            Some(c) => c,
            None => {
                return None;
            },
        };
        proof {
            ids_view(snap.custodians@).unique_seq_to_set();
        }
        if snap.custodians.len() > 256 {
            return None;
        }
        let limit: u32 = if snap.block_size == 0 {
            1
        } else {
            snap.block_size
        };
        let held = snap.current_block.len();
        if held >= limit as usize || held > snap.tx_total as usize {
            return None;
        }
        if (snap.tx_total - held as u32) % limit != 0 {
            return None;
        }
        if snap.custodians_tx != 0 && snap.custodians_tx >= snap.tx_total {
            return None;
        }
        let n = snap.tokens.len();
        let ghost all = snap.tokens@;
        let mut tokens: HashMap<TokenId, Token> = HashMap::new();
        let mut order: Vec<TokenId> = Vec::new();
        let mut i: usize = 0;
        proof {
            assert(order@ =~= record_ids(all.take(0)));
            assert(tokens_view(tokens@) =~= records_map(all.take(0)));
        }
        while i < n
            invariant
                i <= n,
                n == all.len(),
                all == snap.tokens@,
                order@ == record_ids(all.take(i as int)),
                order@.no_duplicates(),
                tokens_view(tokens@) == records_map(all.take(i as int)),
                forall|id: TokenId| tokens@.contains_key(id) <==> order@.contains(id),
                forall|id: TokenId| #[trigger]
                    tokens@.contains_key(id) ==> tokens@[id].approved@.finite()
                        && tokens@[id].approved@.len() <= 256 && tokens@[id].tx_id < snap.tx_total,
                forall|j: int|
                    0 <= j < i ==> ids_view((#[trigger] all[j]).approved@).no_duplicates()
                        && all[j].approved@.len() <= 256 && all[j].tx_id < snap.tx_total,
            decreases n - i,
        {
            let id = snap.tokens[i].token_id;
            let ghost seen = all.take(i as int);
            let ghost next = all.take(i + 1);
            proof {
                assert(next.drop_last() =~= seen);
                assert(next.last() == all[i as int]);
                assert(record_ids(next) =~= record_ids(seen).push(id));
            }
            if tokens.get(&id).is_some() {
                proof {
                    assert(tokens@.contains_key(id));
                    assert(order@.contains(id));
                    let j = choose|j: int| 0 <= j < order@.len() && order@[j] == id;
                    assert(record_ids(seen)[j] == id);
                    assert(seen[j] == all[j]);
                    assert(record_ids(all)[j] == id);
                    assert(record_ids(all)[i as int] == id);
                }
                return None;
            }
            let approved = match IdSet::from_vec(&snap.tokens[i].approved) {
                Some(a) => a,
                None => {
                    return None;
                },
            };
            proof {
                ids_view(all[i as int].approved@).unique_seq_to_set();
            }
            if snap.tokens[i].approved.len() > 256 {
                return None;
            }
            if snap.tokens[i].tx_id >= snap.tx_total {
                return None;
            }
            let token = Token {
                account: snap.tokens[i].account,
                tx_id: snap.tokens[i].tx_id,
                approved,
            };
            proof {
                approved.lemma_finite();
                assert(token@ == all[i as int]@);
            }
            let ghost before_tokens = tokens@;
            let ghost before_order = order@;
            tokens.insert(id, token);
            order.push(id);
            proof {
                assert(tokens_view(tokens@) =~= tokens_view(before_tokens).insert(id, token@));
                assert(!before_order.contains(id));
                assert forall|k: TokenId| tokens@.contains_key(k) <==> order@.contains(k) by {
                    if order@.contains(k) {
                        let j = choose|j: int| 0 <= j < order@.len() && order@[j] == k;
                        if j < before_order.len() {
                            assert(before_order[j] == k);
                            assert(before_order.contains(k));
                        }
                    }
                    if before_order.contains(k) {
                        let j = choose|j: int|
                            0 <= j < before_order.len() && before_order[j] == k;
                        assert(order@[j] == k);
                    }
                    if k == id {
                        assert(order@[before_order.len() as int] == k);
                    }
                }
                assert forall|a: int, b: int|
                    0 <= a < order@.len() && 0 <= b < order@.len() && a != b implies order@[a]
                    != order@[b] by {
                    if a < before_order.len() {
                        assert(before_order.contains(before_order[a]));
                    }
                    if b < before_order.len() {
                        assert(before_order.contains(before_order[b]));
                    }
                }
            }
            i += 1;
        }
        proof {
            assert(all.take(n as int) =~= all);
        }
        let Snapshot {
            registry,
            name,
            symbol,
            tokens: _,
            current_block,
            block_size,
            outbox,
            tx_total,
            custodians_tx,
            custodians: _,
        } = snap;
        let state = State {
            registry,
            name,
            symbol,
            tokens,
            order,
            current_block,
            block_size,
            outbox,
            tx_total,
            custodians_tx,
            custodians,
        };
        proof {
            custodians.lemma_finite();
            assert(state@ == snap@);
            assert(ledger_wf(state@));
        }
        Some(state)
    }
}

/// What a snapshot of a registry tells of is a registry: it has all that
/// holds of every registry.
pub proof fn lemma_snapshot_tells_of_registry(snap: Snapshot)
    requires
        snapshot_ok(snap),
    ensures
        ledger_wf(snap@),
{
    lemma_records_map_dom(snap.tokens@);
    vstd::seq_lib::seq_to_set_is_finite(ids_view(snap.custodians@));
    ids_view(snap.custodians@).unique_seq_to_set();
    lemma_records_map_bounds(snap.tokens@, snap.tx_total);
}

proof fn lemma_records_map_bounds(records: Seq<TokenRecord>, tx_total: Offset)
    requires
        forall|i: int|
            0 <= i < records.len() ==> ids_view((#[trigger] records[i]).approved@).no_duplicates()
                && records[i].approved@.len() <= 256 && records[i].tx_id < tx_total,
    ensures
        forall|id: TokenId| #[trigger]
            records_map(records).contains_key(id) ==> records_map(records)[id].approved.finite()
                && records_map(records)[id].approved.len() <= 256 && records_map(
                records,
            )[id].tx_id < tx_total,
    decreases records.len(),
{
    if records.len() > 0 {
        let init = records.drop_last();
        assert forall|i: int| 0 <= i < init.len() implies ids_view(
            (#[trigger] init[i]).approved@,
        ).no_duplicates() && init[i].approved@.len() <= 256 && init[i].tx_id < tx_total by {
            assert(init[i] == records[i]);
        }
        lemma_records_map_bounds(init, tx_total);
        let last = records.last();
        vstd::seq_lib::seq_to_set_is_finite(ids_view(last.approved@));
        ids_view(last.approved@).unique_seq_to_set();
        assert forall|id: TokenId| #[trigger]
            records_map(records).contains_key(id) implies records_map(
            records,
        )[id].approved.finite() && records_map(records)[id].approved.len() <= 256
            && records_map(records)[id].tx_id < tx_total by {
            if id == last.token_id {
                assert(records_map(records)[id] == last@);
            } else {
                assert(records_map(init).contains_key(id));
                assert(records_map(records)[id] == records_map(init)[id]);
            }
        }
    }
}

} // verus!
