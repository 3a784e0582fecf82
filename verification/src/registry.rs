//! The registry with its certification tree: every operation that is made
//! brings the tree up to date with what it changed.

use vstd::prelude::*;
use crate::certification::{
    after_commit,
    assets_label,
    labeled_domain,
    no_entries,
    sha256_of,
    with_blocks,
    with_names,
    with_tokens,
    with_totals,
    CertTree,
    HashBytes,
};
use crate::identity::OwnerId;
use crate::model::{
    after_approve,
    after_init,
    after_set_custodian,
    after_transfer,
    approve_rejection,
    as_transfer_from,
    custodian_rejection,
    empty_ledger,
    transfer_rejection,
    LedgerView,
};
use crate::state::{outbox_view, Flush, State};
use crate::types::{
    as_transfer_rejection,
    ApproveArgs,
    ApproveError,
    Offset,
    SetCustodianArgs,
    SetCustodiansError,
    TokenId,
    TransferArgs,
    TransferError,
    TransferFromArgs,
    TransferFromError,
};

verus! {

/// What is certified after an operation that took the registry from
/// `before` to `after`: the token that it touched, if it touched one, the
/// totals, and the blocks that it closed.
pub open spec fn certified_after(
    entries: Map<Seq<u8>, Seq<u8>>,
    before: LedgerView,
    after: LedgerView,
    touched: Option<TokenId>,
) -> Map<Seq<u8>, Seq<u8>> {
    after_commit(entries, after, touched, after.outbox.skip(before.outbox.len() as int))
}

/// The registry, and the tree that certifies it.
pub struct Registry {
    state: State,
    tree: CertTree,
}

impl Registry {
    /// What the registry is.
    pub closed spec fn ledger(&self) -> LedgerView {
        self.state@
    }

    /// What is certified: the keys, each with the hash under it.
    pub closed spec fn certified(&self) -> Map<Seq<u8>, Seq<u8>> {
        self.tree@
    }

    /// The root hash of the certification tree.
    pub closed spec fn root(&self) -> Seq<u8> {
        self.tree.root()
    }

    /// Whether the registry is one that `init` and the operations make.
    pub closed spec fn wf(&self) -> bool {
        self.state.wf()
    }

    /// The registry of the identity `registry`, named, with `custodian` as
    /// its only custodian, whose blocks close at `block_size` events. The
    /// custodian's addition is its first transaction; the name, the symbol
    /// and the totals are certified.
    pub fn init(
        registry: OwnerId,
        block_size: u32,
        name: String,
        symbol: String,
        custodian: OwnerId,
        now: u64,
    ) -> (r: Registry)
        ensures
            r.wf(),
            r.ledger() == after_init(
                empty_ledger(registry@, block_size as nat),
                name@,
                symbol@,
                custodian,
                now,
            ),
            r.certified() == after_commit(
                with_names(no_entries(), r.ledger()),
                r.ledger(),
                None,
                r.ledger().outbox,
            ),
    {
        let mut state = State::with_block_size(registry, block_size);
        state.init(name, symbol, custodian, now);
        let mut tree = CertTree::new();
        tree.certify_names(&state);
        proof {
            assert(state@.outbox.skip(0) =~= state@.outbox);
        }
        tree.commit(&state, None, 0);
        Registry { state, tree }
    }

    /// The registry `state` with a tree that certifies it anew: the name and
    /// the symbol, every token, the totals, and the closed blocks `history`
    /// that the host read from durable memory.
    pub fn restore(state: State, history: &Vec<Flush>) -> (r: Registry)
        requires
            state.wf(),
        ensures
            r.wf(),
            r.ledger() == state@,
            r.certified() == with_blocks(
                with_totals(
                    with_tokens(with_names(no_entries(), state@), state@, state@.order),
                    state@,
                ),
                outbox_view(history@),
                state@.block_size,
            ),
    {
        let mut tree = CertTree::new();
        tree.certify_names(&state);
        tree.certify_all_tokens(&state);
        tree.certify_totals(&state);
        proof {
            assert(outbox_view(history@).skip(0) =~= outbox_view(history@));
            crate::certification::lemma_blocks_by_threshold(
                tree@,
                outbox_view(history@),
                state@.block_size,
            );
        }
        tree.certify_blocks(history, 0, state.block_size());
        Registry { state, tree }
    }

    /// The registry itself, for queries.
    pub fn state(&self) -> (s: &State)
        ensures
            s@ == self.ledger(),
            s.wf() == self.wf(),
    {
        &self.state
    }

    /// The certification tree, for lookups and witnesses.
    pub fn tree(&self) -> (t: &CertTree)
        ensures
            t@ == self.certified(),
            t.root() == self.root(),
    {
        &self.tree
    }

    /// What the host is to certify after an operation: the hash of the tree
    /// as the node labeled `http_assets`.
    pub fn certified_data(&self) -> (hash: HashBytes)
        ensures
            hash@ == sha256_of(labeled_domain() + assets_label() + self.root()),
    {
        self.tree.certified_data()
    }

    /// Hands out the closed blocks that wait to be written to durable
    /// memory, oldest first, and keeps none of them. What is certified stays.
    pub fn take_flushes(&mut self) -> (out: Vec<Flush>)
        requires
            old(self).wf(),
        ensures
            final(self).wf(),
            outbox_view(out@) == old(self).ledger().outbox,
            final(self).ledger() == (LedgerView { outbox: Seq::empty(), ..old(self).ledger() }),
            final(self).certified() == old(self).certified(),
    {
        self.state.take_flushes()
    }

    /// A transfer on behalf, as `State::transfer_from` makes it. Where it is
    /// made, the token, the totals and the blocks that it closed are
    /// certified; where it is rejected, nothing changes.
    pub fn transfer_from(&mut self, caller: OwnerId, now: u64, args: TransferFromArgs) -> (r: Result<
        Offset,
        TransferFromError,
    >)
        requires
            old(self).wf(),
            old(self).ledger().tx_total < u32::MAX,
        ensures
            final(self).wf(),
            match transfer_rejection(old(self).ledger(), caller@, args) {
                Some(e) => r is Err && r->Err_0@ == e && final(self).ledger() == old(self).ledger()
                    && final(self).certified() == old(self).certified(),
                None => r == Ok::<Offset, TransferFromError>(old(self).ledger().tx_total as Offset)
                    && final(self).ledger() == after_transfer(old(self).ledger(), caller@, now, args)
                    && final(self).certified() == certified_after(
                    old(self).certified(),
                    old(self).ledger(),
                    final(self).ledger(),
                    Some(args.token_id),
                ),
            },
    {
        let waiting = self.state.pending().len();
        let r = self.state.transfer_from(caller, now, args);
        if r.is_ok() {
            self.tree.commit(&self.state, Some(args.token_id), waiting);
        }
        r
    }

    /// A transfer by the owner, as `State::transfer` makes it. Where it is
    /// made, the token, the totals and the blocks that it closed are
    /// certified; where it is rejected, nothing changes.
    pub fn transfer(&mut self, caller: OwnerId, now: u64, args: TransferArgs) -> (r: Result<
        Offset,
        TransferError,
    >)
        requires
            old(self).wf(),
            old(self).ledger().tx_total < u32::MAX,
        ensures
            final(self).wf(),
            match transfer_rejection(old(self).ledger(), caller@, as_transfer_from(caller, args)) {
                Some(e) => r is Err && r->Err_0@ == as_transfer_rejection(e) && final(self).ledger()
                    == old(self).ledger() && final(self).certified() == old(self).certified(),
                None => r == Ok::<Offset, TransferError>(old(self).ledger().tx_total as Offset)
                    && final(self).ledger() == after_transfer(
                    old(self).ledger(),
                    caller@,
                    now,
                    as_transfer_from(caller, args),
                ) && final(self).certified() == certified_after(
                    old(self).certified(),
                    old(self).ledger(),
                    final(self).ledger(),
                    Some(args.token_id),
                ),
            },
    {
        let waiting = self.state.pending().len();
        let r = self.state.transfer(caller, now, args);
        if r.is_ok() {
            self.tree.commit(&self.state, Some(args.token_id), waiting);
        }
        r
    }

    /// An approval, as `State::approve` makes it. Where it is made, the
    /// token, the totals and the blocks that it closed are certified; where
    /// it is rejected, nothing changes.
    pub fn approve(&mut self, caller: OwnerId, now: u64, args: ApproveArgs) -> (r: Result<
        Offset,
        ApproveError,
    >)
        requires
            old(self).wf(),
            old(self).ledger().tx_total < u32::MAX,
        ensures
            final(self).wf(),
            match approve_rejection(old(self).ledger(), caller@, args) {
                Some(e) => r is Err && r->Err_0@ == e && final(self).ledger() == old(self).ledger()
                    && final(self).certified() == old(self).certified(),
                None => r == Ok::<Offset, ApproveError>(old(self).ledger().tx_total as Offset)
                    && final(self).ledger() == after_approve(old(self).ledger(), caller@, now, args)
                    && final(self).certified() == certified_after(
                    old(self).certified(),
                    old(self).ledger(),
                    final(self).ledger(),
                    Some(args.token_id),
                ),
            },
    {
        let waiting = self.state.pending().len();
        let r = self.state.approve(caller, now, args);
        if r.is_ok() {
            self.tree.commit(&self.state, Some(args.token_id), waiting);
        }
        r
    }

    /// A change to the custodians, as `State::set_custodian` makes it. Where
    /// it is made, the totals and the blocks that it closed are certified;
    /// where it is rejected, nothing changes.
    pub fn set_custodian(&mut self, caller: OwnerId, now: u64, args: SetCustodianArgs) -> (r: Result<
        Offset,
        SetCustodiansError,
    >)
        requires
            old(self).wf(),
            old(self).ledger().tx_total < u32::MAX,
        ensures
            final(self).wf(),
            match custodian_rejection(old(self).ledger(), caller@, args) {
                Some(e) => r is Err && r->Err_0@ == e && final(self).ledger() == old(self).ledger()
                    && final(self).certified() == old(self).certified(),
                None => r == Ok::<Offset, SetCustodiansError>(old(self).ledger().tx_total as Offset)
                    && final(self).ledger() == after_set_custodian(
                    old(self).ledger(),
                    caller@,
                    now,
                    args,
                ) && final(self).certified() == certified_after(
                    old(self).certified(),
                    old(self).ledger(),
                    final(self).ledger(),
                    None,
                ),
            },
    {
        let waiting = self.state.pending().len();
        let r = self.state.set_custodian(caller, now, args);
        if r.is_ok() {
            self.tree.commit(&self.state, None, waiting);
        }
        r
    }
}

} // verus!
