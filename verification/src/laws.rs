//! What holds of the registry's operations, whatever the state and the
//! arguments.

use vstd::prelude::*;
use crate::codec::{
    account_payload,
    account_text,
    ascii_lower,
    base32_nopad,
    base32_symbol,
    bit_at,
    checksummed,
    grouped,
    is_base32_symbol,
    lowercased,
    quintet,
    significant,
    subaccount_suffix,
};
use crate::identity::{minter_view, AccountView};
use crate::model::{
    after_approve,
    after_set_custodian,
    after_transfer,
    approve_rejection,
    committed,
    custodian_rejection,
    transfer_rejection,
    LedgerView,
};
use crate::history::HistoryEntryView;
use crate::types::{
    ApproveArgs,
    EventView,
    Rejection,
    SetCustodianArgs,
    TokenId,
    TransferFromArgs,
};

verus! {

/// A transfer of a token that does not exist, by a caller who is no
/// custodian, is rejected because the token is not found.
pub proof fn lemma_unknown_token_not_found(s: LedgerView, caller: Seq<u8>, args: TransferFromArgs)
    requires
        !s.tokens.contains_key(args.token_id),
        !s.custodians.contains(caller),
    ensures
        transfer_rejection(s, caller, args) == Some(Rejection::NotFound),
{
}

/// A custodian who moves a token that does not exist, from its own account
/// to an account other than the minter's, mints it: the transfer is made,
/// and the token exists and lies with the destination.
pub proof fn lemma_custodian_mints(s: LedgerView, caller: Seq<u8>, now: u64, args: TransferFromArgs)
    requires
        !s.tokens.contains_key(args.token_id),
        s.custodians.contains(caller),
        args.from.owner@ == caller,
        args.to@ != minter_view(s.registry),
    ensures
        transfer_rejection(s, caller, args) is None,
        after_transfer(s, caller, now, args).tokens.contains_key(args.token_id),
        after_transfer(s, caller, now, args).tokens[args.token_id].account == args.to@,
{
}

/// No transfer moves a token to the account that it lies with: it is
/// rejected, whoever calls.
pub proof fn lemma_transfer_to_owner_rejected(s: LedgerView, caller: Seq<u8>, args: TransferFromArgs)
    requires
        s.tokens.contains_key(args.token_id),
        s.tokens[args.token_id].account == args.to@,
    ensures
        transfer_rejection(s, caller, args) is Some,
{
}

/// A transfer to the account that the token lies with is rejected as a
/// transfer to oneself, where no earlier check rejects it: the source owns
/// the token, the caller is a custodian where the token lies with the
/// minter, and the caller is the source or approved.
pub proof fn lemma_transfer_to_owner_not_self(s: LedgerView, caller: Seq<u8>, args: TransferFromArgs)
    requires
        s.tokens.contains_key(args.token_id),
        s.tokens[args.token_id].account == args.to@,
        args.from@ == args.to@,
        args.to@ == minter_view(s.registry) ==> s.custodians.contains(caller),
        args.from.owner@ == caller || s.tokens[args.token_id].approved.contains(caller),
    ensures
        transfer_rejection(s, caller, args) == Some(Rejection::NotSelf),
{
}

/// A caller cannot approve itself.
pub proof fn lemma_approve_self_rejected(s: LedgerView, caller: Seq<u8>, args: ApproveArgs)
    requires
        args.spender@ == caller,
    ensures
        approve_rejection(s, caller, args) == Some(Rejection::NotSelf),
{
}

/// After a transfer, nobody is approved for the token.
pub proof fn lemma_transfer_clears_approvals(
    s: LedgerView,
    caller: Seq<u8>,
    now: u64,
    args: TransferFromArgs,
)
    ensures
        after_transfer(s, caller, now, args).tokens.contains_key(args.token_id),
        after_transfer(s, caller, now, args).tokens[args.token_id].approved == Set::<
            Seq<u8>,
        >::empty(),
{
}

/// Every transaction adds one to the number of transactions.
pub proof fn lemma_commit_counts_one(s: LedgerView, e: EventView, r: HistoryEntryView)
    ensures
        committed(s, e, r).tx_total == s.tx_total + 1,
{
}

/// The records of a block are 78 bytes each, so the records of all closed
/// blocks end where the outbox puts the next block.
pub proof fn lemma_block_bytes_len(block: Seq<(EventView, HistoryEntryView)>)
    requires
        forall|i: int| 0 <= i < block.len() ==> crate::history::entry_fits(#[trigger] block[i].1),
    ensures
        crate::model::block_bytes(block).len() == 78 * block.len(),
    decreases block.len(),
{
    if block.len() > 0 {
        lemma_block_bytes_len(block.drop_last());
        crate::history::lemma_entry_round_trip(block.last().1);
    }
}

/// A registry that was just made and named has one transaction and one
/// custodian, and no tokens.
pub proof fn lemma_init_is_first_transaction(
    registry: Seq<u8>,
    block_size: nat,
    name: Seq<char>,
    symbol: Seq<char>,
    custodian: crate::identity::OwnerId,
    now: u64,
)
    ensures
        ({
            let s = crate::model::after_init(
                crate::model::empty_ledger(registry, block_size),
                name,
                symbol,
                custodian,
                now,
            );
            &&& s.tx_total == 1
            &&& s.custodians == Set::<Seq<u8>>::empty().insert(custodian@)
            &&& s.tokens == Map::<crate::types::TokenId, crate::types::TokenView>::empty()
            &&& s.name == name
            &&& s.symbol == symbol
        }),
{
    let named = LedgerView {
        name,
        symbol,
        custodians: Set::empty().insert(custodian@),
        ..crate::model::empty_ledger(registry, block_size)
    };
    assert(named.custodians.insert(custodian@) =~= named.custodians);
}

/// Each operation that is made adds exactly one transaction.
pub proof fn lemma_operations_count_one(
    s: LedgerView,
    caller: Seq<u8>,
    now: u64,
    transfer: TransferFromArgs,
    approval: ApproveArgs,
    custody: SetCustodianArgs,
)
    ensures
        after_transfer(s, caller, now, transfer).tx_total == s.tx_total + 1,
        after_approve(s, caller, now, approval).tx_total == s.tx_total + 1,
        after_set_custodian(s, caller, now, custody).tx_total == s.tx_total + 1,
{
}

/// Where 256 ids are approved for a token, its owner cannot approve one
/// more.
pub proof fn lemma_approvals_are_bounded(s: LedgerView, caller: Seq<u8>, args: ApproveArgs)
    requires
        approve_rejection(s, caller, ApproveArgs { approved: false, ..args }) is None,
        args.approved,
        s.tokens[args.token_id].approved.len() == 256,
    ensures
        approve_rejection(s, caller, args) == Some(Rejection::MaxApprovals(256)),
{
}

/// After an approval that is made, no more than 256 ids are approved for
/// the token, where no more were before.
pub proof fn lemma_approvals_stay_bounded(s: LedgerView, caller: Seq<u8>, now: u64, args: ApproveArgs)
    requires
        s.tokens.contains_key(args.token_id),
        s.tokens[args.token_id].approved.finite(),
        s.tokens[args.token_id].approved.len() <= 256,
        approve_rejection(s, caller, args) is None,
    ensures
        after_approve(s, caller, now, args).tokens[args.token_id].approved.len() <= 256,
{
    let approved = s.tokens[args.token_id].approved;
    vstd::set::axiom_set_insert_len(approved, args.spender@);
    vstd::set::axiom_set_remove_len(approved, args.spender@);
}

/// A caller who is no custodian cannot change the custodians.
pub proof fn lemma_custodians_only(s: LedgerView, caller: Seq<u8>, args: SetCustodianArgs)
    requires
        !s.custodians.contains(caller),
    ensures
        custodian_rejection(s, caller, args) == Some(Rejection::NotAllowed),
{
}

/// The checks of a transfer are made in a fixed order: where the source
/// does not own the token, that is what the caller is told, whether or not
/// the caller is approved, and whatever the destination is.
pub proof fn lemma_owner_checked_first(s: LedgerView, caller: Seq<u8>, args: TransferFromArgs)
    requires
        s.tokens.contains_key(args.token_id),
        s.tokens[args.token_id].account != args.from@,
        !s.custodians.contains(caller),
    ensures
        transfer_rejection(s, caller, args) == Some(Rejection::NotOwner),
{
}

/// A burn by a caller who is no custodian is told so before it is told that
/// the caller is not approved.
pub proof fn lemma_burn_checked_before_approval(
    s: LedgerView,
    caller: Seq<u8>,
    args: TransferFromArgs,
)
    requires
        s.tokens.contains_key(args.token_id),
        s.tokens[args.token_id].account == args.from@,
        args.to@ == minter_view(s.registry),
        !s.custodians.contains(caller),
    ensures
        transfer_rejection(s, caller, args) == Some(
            Rejection::Generic { code: 403, message: crate::model::not_custodian_message() },
        ),
{
}

proof fn lemma_significant_shape(s: Seq<u8>) -> (k: int)
    ensures
        0 <= k <= s.len(),
        significant(s) == s.skip(k),
        forall|j: int| 0 <= j < k ==> s[j] == 0u8,
    decreases s.len(),
{
    if s.len() == 0 || s[0] != 0 {
        assert(s.skip(0) =~= s);
        0
    } else {
        let t = s.skip(1);
        let k = lemma_significant_shape(t);
        assert(t.skip(k) =~= s.skip(k + 1));
        assert forall|j: int| 0 <= j < k + 1 implies s[j] == 0u8 by {
            if j > 0 {
                assert(t[j - 1] == s[j]);
            }
        }
        k + 1
    }
}

/// Two subaccounts with the same significant bytes are the same.
proof fn lemma_significant_injective(a: Seq<u8>, b: Seq<u8>)
    requires
        a.len() == b.len(),
        significant(a) == significant(b),
    ensures
        a == b,
{
    let ka = lemma_significant_shape(a);
    let kb = lemma_significant_shape(b);
    assert(a.skip(ka).len() == b.skip(kb).len());
    assert(ka == kb);
    assert forall|j: int| 0 <= j < a.len() implies a[j] == b[j] by {
        if j >= ka {
            assert(a.skip(ka)[j - ka] == a[j]);
            assert(b.skip(kb)[j - kb] == b[j]);
        }
    }
    assert(a =~= b);
}

/// Whether the owner's bytes cannot be taken for the end of a subaccount:
/// they do not end with the marker byte 127.
pub open spec fn owner_is_unmarked(owner: Seq<u8>) -> bool {
    owner.len() == 0 || owner.last() != 127u8
}

/// Accounts that differ in a byte of the owner id or of the subaccount have
/// different checksummed bytes, and so different bytes for their text,
/// where no owner id ends with the marker byte.
pub proof fn lemma_account_bytes_injective(a: AccountView, b: AccountView)
    requires
        a.subaccount.len() == 32,
        b.subaccount.len() == 32,
        owner_is_unmarked(a.owner),
        owner_is_unmarked(b.owner),
        checksummed(account_payload(a)) == checksummed(account_payload(b)),
    ensures
        a == b,
{
    let pa = account_payload(a);
    let pb = account_payload(b);
    assert(pa =~= checksummed(pa).skip(4));
    assert(pb =~= checksummed(pb).skip(4));
    assert(pa == pb);
    let sa = subaccount_suffix(a.subaccount);
    let sb = subaccount_suffix(b.subaccount);
    let ka = significant(a.subaccount);
    let kb = significant(b.subaccount);
    lemma_significant_shape(a.subaccount);
    lemma_significant_shape(b.subaccount);
    if sa.len() == 0 && sb.len() == 0 {
        assert(a.owner =~= pa);
        assert(b.owner =~= pb);
        assert(ka =~= kb);
        lemma_significant_injective(a.subaccount, b.subaccount);
    } else if sa.len() == 0 {
        assert(a.owner =~= pa);
        assert(pb.last() == sb.last());
        assert(sb.last() == 127u8);
        assert(false);
    } else if sb.len() == 0 {
        assert(b.owner =~= pb);
        assert(pa.last() == sa.last());
        assert(sa.last() == 127u8);
        assert(false);
    } else {
        let n = pa.len() as int;
        assert(pa[n - 2] == sa[sa.len() - 2]);
        assert(pb[n - 2] == sb[sb.len() - 2]);
        assert(sa[sa.len() - 2] == ka.len() as u8);
        assert(sb[sb.len() - 2] == kb.len() as u8);
        assert(ka.len() == kb.len());
        assert(a.owner.len() == b.owner.len());
        assert(a.owner =~= pa.take(a.owner.len() as int));
        assert(b.owner =~= pb.take(b.owner.len() as int));
        assert(ka =~= pa.subrange(a.owner.len() as int, (a.owner.len() + ka.len()) as int));
        assert(kb =~= pb.subrange(b.owner.len() as int, (b.owner.len() + kb.len()) as int));
        lemma_significant_injective(a.subaccount, b.subaccount);
    }
}

proof fn lemma_filter_len_change(
    ids: Seq<TokenId>,
    p: spec_fn(TokenId) -> bool,
    q: spec_fn(TokenId) -> bool,
    id: TokenId,
)
    requires
        ids.no_duplicates(),
        forall|k: TokenId| k != id ==> #[trigger] p(k) == q(k),
    ensures
        ids.filter(q).len() == ids.filter(p).len() + if ids.contains(id) {
            (if q(id) {
                1int
            } else {
                0int
            }) - (if p(id) {
                1int
            } else {
                0int
            })
        } else {
            0int
        },
    decreases ids.len(),
{
    reveal(Seq::filter);
    if ids.len() > 0 {
        let init = ids.drop_last();
        let last = ids.last();
        assert forall|a: int, b: int|
            0 <= a < init.len() && 0 <= b < init.len() && a != b implies init[a] != init[b] by {
            assert(init[a] == ids[a] && init[b] == ids[b]);
        }
        lemma_filter_len_change(init, p, q, id);
        if last == id {
            if init.contains(id) {
                let j = choose|j: int| 0 <= j < init.len() && init[j] == id;
                assert(ids[j] == id && ids[ids.len() - 1] == id);
            }
            assert(ids.contains(id)) by {
                assert(ids[ids.len() - 1] == id);
            }
        } else {
            if ids.contains(id) {
                let j = choose|j: int| 0 <= j < ids.len() && ids[j] == id;
                assert(init[j] == id);
                assert(init.contains(id));
            }
            if init.contains(id) {
                let j = choose|j: int| 0 <= j < init.len() && init[j] == id;
                assert(ids[j] == id);
            }
        }
    }
}

/// 1 where token `id` exists and is among the tokens that `tokens_where`
/// lists for `account` and `held`, else 0.
pub open spec fn listed(s: LedgerView, id: TokenId, account: AccountView, held: bool) -> int {
    if s.tokens.contains_key(id) && (s.tokens[id].account == account) == held {
        1
    } else {
        0
    }
}

/// A transfer changes the listings by the token that it moves, and by
/// nothing else: a listing has one token more where the token joins it, one
/// less where the token leaves it, and as many as before otherwise. So a
/// mint adds one to the total supply and to the balance of the destination,
/// a burn takes one from the total supply, and a transfer between accounts
/// takes one from the balance of the source and adds one to that of the
/// destination.
pub proof fn lemma_transfer_moves_one_token(
    s: LedgerView,
    caller: Seq<u8>,
    now: u64,
    args: TransferFromArgs,
    account: AccountView,
    held: bool,
)
    requires
        crate::model::ledger_wf(s),
    ensures
        crate::model::tokens_where(after_transfer(s, caller, now, args), account, held).len()
            == crate::model::tokens_where(s, account, held).len() - listed(
            s,
            args.token_id,
            account,
            held,
        ) + listed(after_transfer(s, caller, now, args), args.token_id, account, held),
{
    let after = after_transfer(s, caller, now, args);
    let id = args.token_id;
    let p = crate::model::lies_with(s.tokens, account, held);
    let q = crate::model::lies_with(after.tokens, account, held);
    assert forall|k: TokenId| k != id implies #[trigger] p(k) == q(k) by {
        assert(after.tokens[k] == s.tokens[k]);
    }
    lemma_filter_len_change(s.order, p, q, id);
    if s.tokens.contains_key(id) {
        assert(after.order == s.order);
        assert(s.order.contains(id));
    } else {
        assert(!s.order.contains(id));
        assert(after.order == s.order.push(id));
        assert(after.order.drop_last() =~= s.order);
        assert(after.order.filter(q) == if q(id) {
            s.order.filter(q).push(id)
        } else {
            s.order.filter(q)
        }) by {
            reveal(Seq::filter);
        }
    }
}

/// The total supply after a transfer: one more than before where the token
/// comes into circulation, one less where it leaves it, else the same.
pub proof fn lemma_supply_after_transfer(s: LedgerView, caller: Seq<u8>, now: u64, args: TransferFromArgs)
    requires
        crate::model::ledger_wf(s),
    ensures
        crate::model::in_circulation(after_transfer(s, caller, now, args)).len()
            == crate::model::in_circulation(s).len() - listed(
            s,
            args.token_id,
            minter_view(s.registry),
            false,
        ) + listed(
            after_transfer(s, caller, now, args),
            args.token_id,
            minter_view(s.registry),
            false,
        ),
{
    lemma_transfer_moves_one_token(s, caller, now, args, minter_view(s.registry), false);
}

/// Approvals and changes to the custodians move no token: every listing
/// stays as it is.
pub proof fn lemma_only_transfers_move_tokens(
    s: LedgerView,
    caller: Seq<u8>,
    now: u64,
    approval: ApproveArgs,
    custody: SetCustodianArgs,
    account: AccountView,
    held: bool,
)
    requires
        crate::model::ledger_wf(s),
        s.tokens.contains_key(approval.token_id),
    ensures
        crate::model::tokens_where(after_approve(s, caller, now, approval), account, held)
            == crate::model::tokens_where(s, account, held),
        crate::model::tokens_where(after_set_custodian(s, caller, now, custody), account, held)
            == crate::model::tokens_where(s, account, held),
{
    let approved = after_approve(s, caller, now, approval);
    let p = crate::model::lies_with(s.tokens, account, held);
    let q = crate::model::lies_with(approved.tokens, account, held);
    assert forall|k: TokenId| #[trigger] p(k) == q(k) by {
        if k != approval.token_id {
            assert(approved.tokens[k] == s.tokens[k]);
        }
    }
    assert(p =~= q);
    assert(after_set_custodian(s, caller, now, custody).tokens == s.tokens);
}

/// Number of characters of a text of `n` characters once the dashes are in.
pub open spec fn grouped_len(n: nat) -> nat {
    if n == 0 {
        0
    } else {
        (n + (n - 1) / 5) as nat
    }
}

proof fn lemma_grouped_len(s: Seq<char>)
    ensures
        grouped(s).len() == grouped_len(s.len()),
    decreases s.len(),
{
    if s.len() > 5 {
        lemma_grouped_len(s.skip(5));
    }
}

/// The dashes lose nothing: texts that are the same once the dashes are in
/// were the same before.
pub proof fn lemma_grouped_injective(s: Seq<char>, t: Seq<char>)
    requires
        grouped(s) == grouped(t),
    ensures
        s == t,
    decreases s.len(),
{
    lemma_grouped_len(s);
    lemma_grouped_len(t);
    assert(s.len() == t.len());
    if s.len() > 5 {
        let gs = grouped(s);
        let gt = grouped(t);
        assert(gs == s.take(5) + seq!['-'] + grouped(s.skip(5)));
        assert(gt == t.take(5) + seq!['-'] + grouped(t.skip(5)));
        assert(s.take(5) =~= gs.take(5));
        assert(t.take(5) =~= gt.take(5));
        assert(grouped(s.skip(5)) =~= gs.skip(6));
        assert(grouped(t.skip(5)) =~= gt.skip(6));
        lemma_grouped_injective(s.skip(5), t.skip(5));
        assert(s =~= s.take(5) + s.skip(5));
        assert(t =~= t.take(5) + t.skip(5));
    }
}

/// Lower case loses nothing on base-32 text: texts of base-32 symbols that
/// are the same in lower case are the same.
pub proof fn lemma_lowercased_injective(s: Seq<char>, t: Seq<char>)
    requires
        forall|i: int| 0 <= i < s.len() ==> is_base32_symbol(#[trigger] s[i]),
        forall|i: int| 0 <= i < t.len() ==> is_base32_symbol(#[trigger] t[i]),
        lowercased(s) == lowercased(t),
    ensures
        s == t,
{
    assert(s.len() == lowercased(s).len());
    assert(t.len() == lowercased(t).len());
    assert forall|i: int| 0 <= i < s.len() implies s[i] == t[i] by {
        assert(is_base32_symbol(s[i]));
        assert(is_base32_symbol(t[i]));
        assert(lowercased(s)[i] == ascii_lower(s[i]));
        assert(lowercased(t)[i] == ascii_lower(t[i]));
    }
    assert(s =~= t);
}

/// The text of an account tells as much as its base-32 form: of two base-32
/// texts with the same text in lower case and with dashes, neither differs
/// from the other.
pub proof fn lemma_text_form_loses_nothing(s: Seq<char>, t: Seq<char>)
    requires
        forall|i: int| 0 <= i < s.len() ==> is_base32_symbol(#[trigger] s[i]),
        forall|i: int| 0 <= i < t.len() ==> is_base32_symbol(#[trigger] t[i]),
        grouped(lowercased(s)) == grouped(lowercased(t)),
    ensures
        s == t,
{
    lemma_grouped_injective(lowercased(s), lowercased(t));
    lemma_lowercased_injective(s, t);
}

/// The keys of a list of details.
pub open spec fn detail_keys(details: Seq<(Seq<char>, crate::types::ValueView)>) -> Seq<Seq<char>> {
    Seq::new(details.len(), |i: int| details[i].0)
}

/// No key occurs twice in the details of an event: they are a map from keys
/// to values.
pub proof fn lemma_detail_keys_are_distinct(
    s: LedgerView,
    caller: Seq<u8>,
    now: u64,
    transfer: TransferFromArgs,
    approval: ApproveArgs,
    custody: SetCustodianArgs,
)
    ensures
        detail_keys(crate::model::transfer_event(s, caller, now, transfer).details).no_duplicates(),
        detail_keys(crate::model::approve_event(s, caller, now, approval).details).no_duplicates(),
        detail_keys(crate::model::custodian_event(s, caller, now, custody).details).no_duplicates(),
{
    reveal_strlit("token_id");
    reveal_strlit("time");
    reveal_strlit("from_tx");
    reveal_strlit("memo");
    reveal_strlit("spender");
    reveal_strlit("approved");
    reveal_strlit("custodian");
    assert("token_id"@[1] == 'o' && "time"@[1] == 'i' && "from_tx"@[0] == 'f' && "memo"@[0] == 'm'
        && "spender"@[0] == 's' && "approved"@[0] == 'a' && "custodian"@[0] == 'c' && "token_id"@[0]
        == 't' && "time"@[0] == 't');
}

/// A byte is what its eight bits are worth.
proof fn lemma_byte_of_bits(b: u8)
    ensures
        b == 128 * ((b as int / 128) % 2) + 64 * ((b as int / 64) % 2) + 32 * ((b as int / 32) % 2)
            + 16 * ((b as int / 16) % 2) + 8 * ((b as int / 8) % 2) + 4 * ((b as int / 4) % 2) + 2
            * ((b as int / 2) % 2) + (b as int) % 2,
{
    assert(b == 128 * ((b / 128) % 2) + 64 * ((b / 64) % 2) + 32 * ((b / 32) % 2) + 16 * ((b / 16)
        % 2) + 8 * ((b / 8) % 2) + 4 * ((b / 4) % 2) + 2 * ((b / 2) % 2) + b % 2) by (bit_vector);
}

/// Bytes with the same bits are the same.
proof fn lemma_bits_tell_bytes(x: Seq<u8>, y: Seq<u8>, j: int)
    requires
        x.len() == y.len(),
        0 <= j < x.len(),
        forall|k: int| 0 <= k < 8 * x.len() ==> bit_at(x, k) == bit_at(y, k),
    ensures
        x[j] == y[j],
{
    lemma_byte_of_bits(x[j]);
    lemma_byte_of_bits(y[j]);
    assert(x[j] as int / 1 == x[j] as int);
    assert(y[j] as int / 1 == y[j] as int);
    assert(bit_at(x, 8 * j) == (x[j] as int / 128) % 2);
    assert(bit_at(x, 8 * j + 1) == (x[j] as int / 64) % 2);
    assert(bit_at(x, 8 * j + 2) == (x[j] as int / 32) % 2);
    assert(bit_at(x, 8 * j + 3) == (x[j] as int / 16) % 2);
    assert(bit_at(x, 8 * j + 4) == (x[j] as int / 8) % 2);
    assert(bit_at(x, 8 * j + 5) == (x[j] as int / 4) % 2);
    assert(bit_at(x, 8 * j + 6) == (x[j] as int / 2) % 2);
    assert(bit_at(x, 8 * j + 7) == (x[j] as int) % 2);
    assert(bit_at(y, 8 * j) == (y[j] as int / 128) % 2);
    assert(bit_at(y, 8 * j + 1) == (y[j] as int / 64) % 2);
    assert(bit_at(y, 8 * j + 2) == (y[j] as int / 32) % 2);
    assert(bit_at(y, 8 * j + 3) == (y[j] as int / 16) % 2);
    assert(bit_at(y, 8 * j + 4) == (y[j] as int / 8) % 2);
    assert(bit_at(y, 8 * j + 5) == (y[j] as int / 4) % 2);
    assert(bit_at(y, 8 * j + 6) == (y[j] as int / 2) % 2);
    assert(bit_at(y, 8 * j + 7) == (y[j] as int) % 2);
}

/// The five bits of a symbol are told by the number that they make.
proof fn lemma_quintet_tells_bits(x: Seq<u8>, y: Seq<u8>, i: int)
    requires
        quintet(x, i) == quintet(y, i),
    ensures
        bit_at(x, 5 * i) == bit_at(y, 5 * i),
        bit_at(x, 5 * i + 1) == bit_at(y, 5 * i + 1),
        bit_at(x, 5 * i + 2) == bit_at(y, 5 * i + 2),
        bit_at(x, 5 * i + 3) == bit_at(y, 5 * i + 3),
        bit_at(x, 5 * i + 4) == bit_at(y, 5 * i + 4),
{
    let a0 = bit_at(x, 5 * i);
    let a1 = bit_at(x, 5 * i + 1);
    let a2 = bit_at(x, 5 * i + 2);
    let a3 = bit_at(x, 5 * i + 3);
    let a4 = bit_at(x, 5 * i + 4);
    let b0 = bit_at(y, 5 * i);
    let b1 = bit_at(y, 5 * i + 1);
    let b2 = bit_at(y, 5 * i + 2);
    let b3 = bit_at(y, 5 * i + 3);
    let b4 = bit_at(y, 5 * i + 4);
    assert(0 <= a0 <= 1 && 0 <= a1 <= 1 && 0 <= a2 <= 1 && 0 <= a3 <= 1 && 0 <= a4 <= 1);
    assert(0 <= b0 <= 1 && 0 <= b1 <= 1 && 0 <= b2 <= 1 && 0 <= b3 <= 1 && 0 <= b4 <= 1);
    assert(16 * a0 + 8 * a1 + 4 * a2 + 2 * a3 + a4 == 16 * b0 + 8 * b1 + 4 * b2 + 2 * b3 + b4);
    assert(a4 == b4);
    assert(a3 == b3);
    assert(a2 == b2);
    assert(a1 == b1);
}

/// Base 32 loses nothing: bytes with the same base-32 text are the same.
pub proof fn lemma_base32_injective(x: Seq<u8>, y: Seq<u8>)
    requires
        base32_nopad(x) == base32_nopad(y),
    ensures
        x == y,
{
    let n = base32_nopad(x).len() as int;
    assert(n == (8 * x.len() + 4) / 5);
    assert(n == (8 * y.len() + 4) / 5);
    assert(x.len() == y.len());
    assert forall|k: int| 0 <= k < 8 * x.len() implies bit_at(x, k) == bit_at(y, k) by {
        let i = k / 5;
        assert(0 <= i < n);
        crate::codec::lemma_quintet_bound(x, i);
        crate::codec::lemma_quintet_bound(y, i);
        assert(base32_nopad(x)[i] == base32_symbol(quintet(x, i)));
        assert(base32_nopad(y)[i] == base32_symbol(quintet(y, i)));
        assert(quintet(x, i) == quintet(y, i));
        lemma_quintet_tells_bits(x, y, i);
        assert(k == 5 * i + k % 5);
    }
    assert forall|j: int| 0 <= j < x.len() implies x[j] == y[j] by {
        lemma_bits_tell_bytes(x, y, j);
    }
    assert(x =~= y);
}

/// Changing any byte of the owner id or of the subaccount changes the text
/// of an account, where no owner id ends with the marker byte 127: accounts
/// with the same text are the same.
pub proof fn lemma_account_text_injective(a: AccountView, b: AccountView)
    requires
        a.subaccount.len() == 32,
        b.subaccount.len() == 32,
        owner_is_unmarked(a.owner),
        owner_is_unmarked(b.owner),
        account_text(a) == account_text(b),
    ensures
        a == b,
{
    let ca = checksummed(account_payload(a));
    let cb = checksummed(account_payload(b));
    crate::codec::lemma_base32_symbols(ca);
    crate::codec::lemma_base32_symbols(cb);
    lemma_text_form_loses_nothing(base32_nopad(ca), base32_nopad(cb));
    lemma_base32_injective(ca, cb);
    lemma_account_bytes_injective(a, b);
}

/// The text of an account without subaccount is the text of its owner.
pub proof fn lemma_account_text_of_owner(a: AccountView)
    requires
        a.subaccount == crate::identity::zero_subaccount(),
    ensures
        account_text(a) == crate::codec::principal_text(a.owner),
{
    assert forall|i: int| 0 <= i < a.subaccount.len() implies a.subaccount[i] == 0u8 by {
        assert(crate::identity::zero_subaccount()[i] == 0u8);
    }
    lemma_significant_zero(a.subaccount);
    assert(account_payload(a) =~= a.owner);
}

proof fn lemma_significant_zero(s: Seq<u8>)
    requires
        forall|i: int| 0 <= i < s.len() ==> s[i] == 0u8,
    ensures
        significant(s).len() == 0,
    decreases s.len(),
{
    if s.len() > 0 {
        assert forall|i: int| 0 <= i < s.skip(1).len() implies s.skip(1)[i] == 0u8 by {
            assert(s.skip(1)[i] == s[i + 1]);
        }
        lemma_significant_zero(s.skip(1));
    }
}

/// An example: base 32 of the byte `f` is `MY`.
pub proof fn lemma_base32_example()
    ensures
        base32_nopad(seq![0x66u8]) == seq!['M', 'Y'],
{
    let data = seq![0x66u8];
    assert(data.len() == 1 && data[0] == 0x66u8);
    assert(0x66int / 1 == 0x66);
    assert(bit_at(data, 0) == 0);
    assert(bit_at(data, 1) == 1);
    assert(bit_at(data, 2) == 1);
    assert(bit_at(data, 3) == 0);
    assert(bit_at(data, 4) == 0);
    assert(bit_at(data, 5) == 1);
    assert(bit_at(data, 6) == 1);
    assert(bit_at(data, 7) == 0);
    assert(quintet(data, 0) == 12);
    assert(quintet(data, 1) == 24);
    assert(base32_nopad(data) =~= seq!['M', 'Y']);
}

} // verus!
