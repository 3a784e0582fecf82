//! The durable record of one transaction: 78 bytes of fixed layout.
//!
//! | bytes    | content                                         |
//! |----------|-------------------------------------------------|
//! | 0..4     | token id, least significant byte first          |
//! | 4        | number of bytes of the owner id                 |
//! | 5..34    | the owner id, followed by zeros                 |
//! | 34..66   | the subaccount, all zero for the default one    |
//! | 66..74   | the time, least significant byte first          |
//! | 74..78   | the previous transaction, same byte order       |

use vstd::prelude::*;
use crate::bytes::{
    from_le32,
    from_le64,
    le32,
    le64,
    lemma_le32_round_trip,
    lemma_le64_round_trip,
    push_le32,
    push_le64,
    read_le32,
    read_le64,
};
use crate::identity::{
    zero_subaccount,
    Account,
    AccountView,
    IdentityError,
    OwnerId,
    Subaccount,
};
use crate::types::{Offset, Time, TokenId};

verus! {

/// Fixed size of a history entry in durable memory.
pub const HISTORY_ENTRY_BYTES: usize = 78;

/// A history entry has a token id, the account that holds the token from
/// then on, the time, and the transaction that the entry chains back to.
#[derive(Clone, Copy, Debug, PartialEq, Eq)]
pub struct HistoryEntry {
    pub token_id: TokenId,
    pub account: Account,
    pub time: Time,
    pub from_offset: Offset,
}

/// What a `HistoryEntry` is.
pub struct HistoryEntryView {
    pub token_id: TokenId,
    pub account: AccountView,
    pub time: Time,
    pub from_offset: Offset,
}

impl View for HistoryEntry {
    type V = HistoryEntryView;

    open spec fn view(&self) -> HistoryEntryView {
        HistoryEntryView {
            token_id: self.token_id,
            account: self.account@,
            time: self.time,
            from_offset: self.from_offset,
        }
    }
}

/// `n` zero bytes.
pub open spec fn zeros(n: nat) -> Seq<u8> {
    Seq::new(n, |i: int| 0u8)
}

/// The 78 bytes of an entry whose owner id has at most 29 bytes and whose
/// subaccount has 32.
pub open spec fn entry_bytes(e: HistoryEntryView) -> Seq<u8> {
    le32(e.token_id) + seq![e.account.owner.len() as u8] + e.account.owner + zeros(
        (29 - e.account.owner.len()) as nat,
    ) + e.account.subaccount + le64(e.time) + le32(e.from_offset)
}

/// Whether 78 bytes hold an entry: the owner id's length is at most 29.
pub open spec fn is_entry(bytes: Seq<u8>) -> bool {
    bytes.len() == 78 && bytes[4] <= 29
}

/// The entry that 78 bytes hold.
pub open spec fn entry_of(bytes: Seq<u8>) -> HistoryEntryView {
    HistoryEntryView {
        token_id: from_le32(bytes.subrange(0, 4)) as u32,
        account: AccountView {
            owner: bytes.subrange(5, 5 + bytes[4]),
            subaccount: bytes.subrange(34, 66),
        },
        time: from_le64(bytes.subrange(66, 74)) as u64,
        from_offset: from_le32(bytes.subrange(74, 78)) as u32,
    }
}

/// Whether an entry can be written: its owner id and subaccount have the
/// lengths that every account has.
pub open spec fn entry_fits(e: HistoryEntryView) -> bool {
    e.account.owner.len() <= 29 && e.account.subaccount.len() == 32
}

/// The bytes of an entry are 78, they hold an entry, and it is the one that
/// was written.
pub proof fn lemma_entry_round_trip(e: HistoryEntryView)
    requires
        entry_fits(e),
    ensures
        entry_bytes(e).len() == 78,
        is_entry(entry_bytes(e)),
        entry_of(entry_bytes(e)) == e,
{
    let b = entry_bytes(e);
    lemma_le32_round_trip(e.token_id);
    lemma_le32_round_trip(e.from_offset);
    lemma_le64_round_trip(e.time);
    assert(b.len() == 78);
    assert(b.subrange(0, 4) =~= le32(e.token_id));
    assert(b[4] == e.account.owner.len() as u8);
    assert(b.subrange(5, 5 + b[4]) =~= e.account.owner);
    assert(b.subrange(34, 66) =~= e.account.subaccount);
    assert(b.subrange(66, 74) =~= le64(e.time));
    assert(b.subrange(74, 78) =~= le32(e.from_offset));
}

/// Convert between a value and its fixed-length bytes in durable memory.
pub trait StableBytes<T>: Sized {
    /// The bytes that a buffer holds.
    spec fn buffer_bytes(buf: &T) -> Seq<u8>;

    /// Whether `bytes` hold a value.
    spec fn is_stable_form(bytes: Seq<u8>) -> bool;

    /// The bytes of the value.
    spec fn stable_form(&self) -> Seq<u8>;

    /// Whether `self` is the value that `bytes` hold.
    spec fn is_value_of(&self, bytes: Seq<u8>) -> bool;

    /// The value that the buffer holds, if it holds one.
    fn from_stable_bytes(bytes: &T) -> (r: Result<Self, IdentityError>)
        ensures
            Self::is_stable_form(Self::buffer_bytes(bytes)) ==> r is Ok && r->Ok_0.is_value_of(
                Self::buffer_bytes(bytes),
            ),
            !Self::is_stable_form(Self::buffer_bytes(bytes)) ==> r is Err && r->Err_0
                == IdentityError::InvalidIdentity,
    ;

    /// Fills the buffer with the bytes of the value.
    fn to_stable_bytes(&self, buf: &mut T)
        ensures
            Self::buffer_bytes(final(buf)) == self.stable_form(),
    ;
}

/// Appends `n` zero bytes.
fn push_zeros(out: &mut Vec<u8>, n: usize)
    ensures
        final(out)@ == old(out)@ + zeros(n as nat),
{
    let mut i: usize = 0;
    while i < n
        invariant
            i <= n,
            out@ == old(out)@ + zeros(i as nat),
        decreases n - i,
    {
        out.push(0);
        assert(out@ =~= old(out)@ + zeros((i + 1) as nat));
        i += 1;
    }
}

impl HistoryEntry {
    /// The 78 bytes of the entry.
    pub fn to_vec(&self) -> (out: Vec<u8>)
        ensures
            out@ == entry_bytes(self@),
            out@.len() == 78,
    {
        let mut out: Vec<u8> = Vec::new();
        push_le32(&mut out, self.token_id);
        let n = self.account.owner.len();
        out.push(n as u8);
        let mut i: usize = 0;
        while i < n
            invariant
                i <= n,
                n == self.account.owner@.len(),
                out@ == le32(self.token_id) + seq![n as u8] + self.account.owner@.take(i as int),
            decreases n - i,
        {
            out.push(self.account.owner.byte(i));
            assert(out@ =~= le32(self.token_id) + seq![n as u8] + self.account.owner@.take(
                i + 1,
            ));
            i += 1;
        }
        assert(self.account.owner@.take(n as int) =~= self.account.owner@);
        push_zeros(&mut out, 29 - n);
        let subaccount = match self.account.subaccount {
            Some(s) => s,
            None => Subaccount::default_subaccount(),
        };
        let ghost head = out@;
        let mut j: usize = 0;
        while j < 32
            invariant
                j <= 32,
                out@ == head + subaccount@.take(j as int),
            decreases 32 - j,
        {
            out.push(subaccount.0[j]);
            assert(out@ =~= head + subaccount@.take(j + 1));
            j += 1;
        }
        assert(subaccount@.take(32) =~= subaccount@);
        push_le64(&mut out, self.time);
        push_le32(&mut out, self.from_offset);
        assert(out@ =~= entry_bytes(self@));
        out
    }

    /// The entry that `bytes` hold from index `at` on, if the 78 bytes there
    /// hold one. In it the default subaccount is written as no subaccount.
    pub fn read_at(bytes: &[u8], at: usize) -> (r: Result<HistoryEntry, IdentityError>)
        requires
            at + 78 <= bytes@.len(),
        ensures
            is_entry(bytes@.subrange(at as int, at + 78)) ==> r is Ok && r->Ok_0@ == entry_of(
                bytes@.subrange(at as int, at + 78),
            ) && (r->Ok_0.account.subaccount is None <==> r->Ok_0@.account.subaccount
                == zero_subaccount()),
            !is_entry(bytes@.subrange(at as int, at + 78)) ==> r is Err && r->Err_0
                == IdentityError::InvalidIdentity,
    {
        let total: usize = bytes.len();
        assert(at + 78 <= total);
        let ghost rec = bytes@.subrange(at as int, at + 78);
        let n = bytes[at + 4] as usize;
        assert(rec[4] == bytes@[at + 4]);
        if n > 29 {
            return Err(IdentityError::InvalidIdentity);
        }
        let token_id = read_le32(bytes, at);
        let time = read_le64(bytes, at + 66);
        let from_offset = read_le32(bytes, at + 74);
        proof {
            assert(rec.subrange(0, 4) =~= bytes@.subrange(at as int, at + 4));
            assert(rec.subrange(66, 74) =~= bytes@.subrange(at + 66, at + 74));
            assert(rec.subrange(74, 78) =~= bytes@.subrange(at + 74, at + 78));
        }
        let mut owner_bytes: Vec<u8> = Vec::new();
        let mut i: usize = 0;
        while i < n
            invariant
                i <= n <= 29,
                at + 78 <= bytes@.len(),
                total == bytes@.len(),
                owner_bytes@ == bytes@.subrange(at + 5, at + 5 + i),
            decreases n - i,
        {
            owner_bytes.push(bytes[at + 5 + i]);
            assert(owner_bytes@ =~= bytes@.subrange(at + 5, at + 5 + i + 1));
            i += 1;
        }
        assert(owner_bytes@ =~= rec.subrange(5, 5 + rec[4]));
        let mut sub = [0u8; 32];
        let mut j: usize = 0;
        while j < 32
            invariant
                j <= 32,
                at + 78 <= bytes@.len(),
                total == bytes@.len(),
                forall|k: int| 0 <= k < j ==> sub@[k] == bytes@[at + 34 + k],
            decreases 32 - j,
        {
            sub[j] = bytes[at + 34 + j];
            j += 1;
        }
        assert(sub@ =~= rec.subrange(34, 66));
        match OwnerId::from_slice(owner_bytes.as_slice()) {
            Ok(owner) => {
                let account = Account::new(owner, Some(Subaccount(sub)));
                Ok(HistoryEntry { token_id, account, time, from_offset })
            },
            Err(e) => Err(e),
        }
    }
}

impl StableBytes<[u8; 78]> for HistoryEntry {
    open spec fn buffer_bytes(buf: &[u8; 78]) -> Seq<u8> {
        buf@
    }

    open spec fn is_stable_form(bytes: Seq<u8>) -> bool {
        is_entry(bytes)
    }

    open spec fn stable_form(&self) -> Seq<u8> {
        entry_bytes(self@)
    }

    open spec fn is_value_of(&self, bytes: Seq<u8>) -> bool {
        self@ == entry_of(bytes) && (self.account.subaccount is None <==> self@.account.subaccount
            == zero_subaccount())
    }

    fn from_stable_bytes(bytes: &[u8; 78]) -> (r: Result<Self, IdentityError>) {
        assert(bytes@.subrange(0, 78) =~= bytes@);
        HistoryEntry::read_at(bytes.as_slice(), 0)
    }

    fn to_stable_bytes(&self, buf: &mut [u8; 78]) {
        let bytes = self.to_vec();
        let mut i: usize = 0;
        while i < 78
            invariant
                i <= 78,
                bytes@.len() == 78,
                forall|k: int| 0 <= k < i ==> buf@[k] == bytes@[k],
            decreases 78 - i,
        {
            buf[i] = bytes[i];
            i += 1;
        }
        assert(buf@ =~= bytes@);
    }
}

/// What was written is what is read: reading the bytes of an entry gives an
/// entry with the same token, account, time and previous transaction.
pub proof fn lemma_stable_bytes_round_trip(e: HistoryEntry)
    ensures
        is_entry(entry_bytes(e@)),
        entry_of(entry_bytes(e@)) == e@,
{
    e.account.owner.lemma_len_bound();
    lemma_entry_round_trip(e@);
}

} // verus!
