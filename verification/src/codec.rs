//! The textual form of accounts and owner ids, and the mint-index codec.
//!
//! The text of an account is made from the owner's bytes, followed, where the
//! subaccount is not the default one, by its bytes without leading zeros, their
//! count and the marker byte 127. A CRC-32 checksum of these bytes is put in
//! front, the whole is written in unpadded lower-case base 32, and a dash is
//! inserted after every fifth character.

use vstd::prelude::*;
use vstd::string::StringExecFns;
use vstd::string::StrSliceExecFns;
use crate::bytes::{be32, from_be32, lemma_be32_round_trip, push_be32, read_be32};
use crate::identity::{Account, AccountView, IdentityError, OwnerId, Subaccount};

verus! {

/// The CRC-32 checksum (IEEE) of `data`.
pub uninterp spec fn crc32_of(data: Seq<u8>) -> u32;

/// What a bit is worth that stands `e` places before the last bit of a byte.
pub open spec fn bit_weight(e: int) -> int {
    if e == 0 {
        1
    } else if e == 1 {
        2
    } else if e == 2 {
        4
    } else if e == 3 {
        8
    } else if e == 4 {
        16
    } else if e == 5 {
        32
    } else if e == 6 {
        64
    } else {
        128
    }
}

/// Bit number `k` of `data`, counted from the most significant bit of the
/// first byte; 0 beyond the last byte.
pub open spec fn bit_at(data: Seq<u8>, k: int) -> int {
    if 0 <= k < 8 * data.len() {
        (data[k / 8] as int / bit_weight(7 - k % 8)) % 2
    } else {
        0
    }
}

/// The number that five bits of `data` make, from bit `5 * i` on, the first
/// of them being worth most.
pub open spec fn quintet(data: Seq<u8>, i: int) -> int {
    16 * bit_at(data, 5 * i) + 8 * bit_at(data, 5 * i + 1) + 4 * bit_at(data, 5 * i + 2) + 2
        * bit_at(data, 5 * i + 3) + bit_at(data, 5 * i + 4)
}

/// The base-32 symbol for a number under 32: `A` to `Z` for 0 to 25, `2` to
/// `7` for 26 to 31.
pub open spec fn base32_symbol(v: int) -> char {
    if v < 26 {
        (65 + v) as u8 as char
    } else {
        (24 + v) as u8 as char
    }
}

/// The unpadded base-32 text of `data`: one symbol for every five bits, the
/// last one filled up with zero bits.
pub open spec fn base32_nopad(data: Seq<u8>) -> Seq<char> {
    Seq::new(((8 * data.len() + 4) / 5) as nat, |i: int| base32_symbol(quintet(data, i)))
}


/// Calls `crc32fast::hash`: the result is the CRC-32 checksum of the bytes
/// given, which is taken on trust under the name `crc32_of`.
#[verifier::external_body]
fn crc32(data: &Vec<u8>) -> (sum: u32)
    ensures
        sum == crc32_of(data@),
{
    crc32fast::hash(data.as_slice())
}

/// Calls `data_encoding::BASE32_NOPAD.encode`, which panics on an input longer
/// than `usize::MAX / 512`. It is taken on trust that the result is the
/// unpadded base-32 text of the bytes: five bits to a symbol of the alphabet
/// `A` to `Z`, `2` to `7`, the most significant bit first.
#[verifier::external_body]
fn base32_encode(data: &Vec<u8>) -> (text: String)
    requires
        data@.len() <= 0x7f_ffff,
    ensures
        text@ == base32_nopad(data@),
{
    data_encoding::BASE32_NOPAD.encode(data.as_slice())
}

/// Calls `str::to_ascii_lowercase` of std: the letters `A` to `Z` become `a`
/// to `z`, and every other character stays.
#[verifier::external_body]
fn to_ascii_lowercase(text: &String) -> (lower: String)
    ensures
        lower@ == lowercased(text@),
{
    text.to_ascii_lowercase()
}

/// Calls `candid::Principal::from_slice`, which panics on more than 29 bytes,
/// and `Principal::to_text` on what it returns. It is taken on trust that the
/// result is the text of the bytes: their CRC-32 checksum in front, base 32
/// in lower case, a dash after every fifth character.
#[verifier::external_body]
fn principal_to_text(bytes: &Vec<u8>) -> (text: String)
    requires
        bytes@.len() <= 29,
    ensures
        text@ == principal_text(bytes@),
{
    candid::Principal::from_slice(bytes.as_slice()).to_text()
}

/// Whether `c` is one of the 32 symbols of the base-32 alphabet.
pub open spec fn is_base32_symbol(c: char) -> bool {
    ('A' <= c && c <= 'Z') || ('2' <= c && c <= '7')
}

/// `c` in lower case, where it is an upper-case ASCII letter.
pub open spec fn ascii_lower(c: char) -> char {
    if 'A' <= c && c <= 'Z' {
        ((c as u8) + 32) as u8 as char
    } else {
        c
    }
}

/// `s` with every upper-case ASCII letter in lower case.
pub open spec fn lowercased(s: Seq<char>) -> Seq<char> {
    Seq::new(s.len(), |i: int| ascii_lower(s[i]))
}

/// `s` with a dash after every fifth character that has a successor.
pub open spec fn grouped(s: Seq<char>) -> Seq<char>
    decreases s.len(),
{
    if s.len() > 5 {
        s.take(5) + seq!['-'] + grouped(s.skip(5))
    } else {
        s
    }
}

/// `s` without its leading zero bytes.
pub open spec fn significant(s: Seq<u8>) -> Seq<u8>
    decreases s.len(),
{
    if s.len() == 0 || s[0] != 0 {
        s
    } else {
        significant(s.skip(1))
    }
}

/// What a subaccount adds to the owner's bytes: nothing for the default
/// subaccount, else its significant bytes, their count and the marker 127.
pub open spec fn subaccount_suffix(subaccount: Seq<u8>) -> Seq<u8> {
    let kept = significant(subaccount);
    if kept.len() == 0 {
        Seq::<u8>::empty()
    } else {
        kept + seq![kept.len() as u8, 127u8]
    }
}

/// The bytes that the text of an account encodes.
pub open spec fn account_payload(a: AccountView) -> Seq<u8> {
    a.owner + subaccount_suffix(a.subaccount)
}

/// `payload` behind its checksum, most significant byte first.
pub open spec fn checksummed(payload: Seq<u8>) -> Seq<u8> {
    be32(crc32_of(payload)) + payload
}

/// The text of `payload`: checksum in front, base 32 in lower case, dashes.
pub open spec fn text_form(payload: Seq<u8>) -> Seq<char> {
    grouped(lowercased(base32_nopad(checksummed(payload))))
}

/// The text of an account.
pub open spec fn account_text(a: AccountView) -> Seq<char> {
    text_form(account_payload(a))
}

/// The text of an owner id: the text that a principal of these bytes has.
pub open spec fn principal_text(bytes: Seq<u8>) -> Seq<char> {
    text_form(bytes)
}

proof fn lemma_significant_skip(s: Seq<u8>, k: int)
    requires
        0 <= k <= s.len(),
        forall|j: int| 0 <= j < k ==> s[j] == 0u8,
    ensures
        significant(s) == significant(s.skip(k)),
    decreases k,
{
    if k == 0 {
        assert(s.skip(0) =~= s);
    } else {
        lemma_significant_skip(s, k - 1);
        let t = s.skip(k - 1);
        assert(t[0] == 0u8);
        assert(t.skip(1) =~= s.skip(k));
    }
}

/// Appends the bytes of `src` to `out`.
fn append_bytes(out: &mut Vec<u8>, src: &Vec<u8>)
    ensures
        final(out)@ == old(out)@ + src@,
{
    let n = src.len();
    let mut i: usize = 0;
    while i < n
        invariant
            i <= n,
            n == src@.len(),
            out@ == old(out)@ + src@.take(i as int),
        decreases n - i,
    {
        out.push(src[i]);
        assert(out@ =~= old(out)@ + src@.take(i + 1));
        i += 1;
    }
    assert(src@.take(n as int) =~= src@);
}

/// Appends to `out` what `subaccount` adds to the owner's bytes.
fn push_subaccount_suffix(out: &mut Vec<u8>, subaccount: &Subaccount)
    ensures
        final(out)@ == old(out)@ + subaccount_suffix(subaccount@),
{
    let mut first: usize = 0;
    while first < 32 && subaccount.0[first] == 0
        invariant
            first <= 32,
            forall|j: int| 0 <= j < first ==> subaccount@[j] == 0u8,
        decreases 32 - first,
    {
        first += 1;
    }
    proof {
        lemma_significant_skip(subaccount@, first as int);
    }
    let ghost kept = subaccount@.skip(first as int);
    assert(significant(subaccount@) == kept);
    if first == 32 {
        assert(out@ =~= old(out)@ + subaccount_suffix(subaccount@));
        return ;
    }
    let mut i: usize = first;
    while i < 32
        invariant
            first <= i <= 32,
            out@ == old(out)@ + subaccount@.subrange(first as int, i as int),
        decreases 32 - i,
    {
        out.push(subaccount.0[i]);
        assert(out@ =~= old(out)@ + subaccount@.subrange(first as int, i + 1));
        i += 1;
    }
    assert(subaccount@.subrange(first as int, 32) =~= kept);
    out.push((32 - first) as u8);
    out.push(127);
    assert(out@ =~= old(out)@ + subaccount_suffix(subaccount@));
}

/// The number that five bits make is under 32.
pub proof fn lemma_quintet_bound(data: Seq<u8>, i: int)
    ensures
        0 <= quintet(data, i) < 32,
{
}

/// Base-32 text holds symbols of the alphabet only.
pub proof fn lemma_base32_symbols(data: Seq<u8>)
    ensures
        forall|i: int|
            0 <= i < base32_nopad(data).len() ==> is_base32_symbol(#[trigger] base32_nopad(data)[i]),
{
    assert forall|i: int| 0 <= i < base32_nopad(data).len() implies is_base32_symbol(
        #[trigger] base32_nopad(data)[i],
    ) by {
        lemma_quintet_bound(data, i);
    }
}

proof fn lemma_lowercased_ascii(s: Seq<char>)
    requires
        forall|i: int| 0 <= i < s.len() ==> is_base32_symbol(#[trigger] s[i]),
    ensures
        vstd::utf8::is_ascii_chars(lowercased(s)),
{
    assert forall|i: int| 0 <= i < lowercased(s).len() implies '\0' <= #[trigger] lowercased(
        s,
    )[i] && lowercased(s)[i] <= '\u{7f}' by {
        assert(is_base32_symbol(s[i]));
    }
}

/// `text` with a dash after every fifth character that has a successor.
fn group_by_five(text: &String) -> (out: String)
    requires
        vstd::utf8::is_ascii_chars(text@),
    ensures
        out@ == grouped(text@),
{
    let s = text.as_str();
    let n = s.unicode_len();
    let mut out = String::new();
    let mut pos: usize = 0;
    assert(s@.skip(0) =~= s@);
    assert(out@ + grouped(s@) =~= grouped(s@));
    while n - pos > 5
        invariant
            pos <= n,
            n == s@.len(),
            s@ == text@,
            s.is_ascii(),
            out@ + grouped(s@.skip(pos as int)) == grouped(s@),
        decreases n - pos,
    {
        let part = s.substring_ascii(pos, pos + 5);
        let ghost before = out@;
        out.append(part);
        out.append("-");
        proof {
            reveal_strlit("-");
            let rest = s@.skip(pos as int);
            assert(rest.take(5) =~= s@.subrange(pos as int, pos + 5));
            assert(rest.skip(5) =~= s@.skip(pos + 5));
            assert("-"@ =~= seq!['-']);
            assert(out@ =~= before + rest.take(5) + seq!['-']);
            assert(grouped(rest) == rest.take(5) + seq!['-'] + grouped(rest.skip(5)));
            assert(out@ + grouped(s@.skip(pos + 5)) =~= before + grouped(rest));
        }
        pos += 5;
    }
    let part = s.substring_ascii(pos, n);
    proof {
        assert(s@.subrange(pos as int, n as int) =~= s@.skip(pos as int));
    }
    out.append(part);
    out
}

/// The text of `payload`: checksum in front, base 32 in lower case, dashes.
fn encode_text(payload: &Vec<u8>) -> (text: String)
    requires
        payload@.len() <= 0x7f_0000,
    ensures
        text@ == text_form(payload@),
{
    let checksum = crc32(payload);
    let mut full: Vec<u8> = Vec::new();
    push_be32(&mut full, checksum);
    append_bytes(&mut full, payload);
    assert(full@ =~= checksummed(payload@));
    let upper = base32_encode(&full);
    let lower = to_ascii_lowercase(&upper);
    proof {
        lemma_base32_symbols(full@);
        lemma_lowercased_ascii(upper@);
    }
    group_by_five(&lower)
}

impl Account {
    /// The text of the account: the same account always has the same text.
    pub fn to_text(&self) -> (text: String)
        ensures
            text@ == account_text(self@),
    {
        let mut payload: Vec<u8> = self.owner.to_vec();
        let subaccount = match self.subaccount {
            Some(s) => s,
            None => Subaccount::default_subaccount(),
        };
        push_subaccount_suffix(&mut payload, &subaccount);
        proof {
            self.owner.lemma_len_bound();
            lemma_suffix_len(subaccount@);
        }
        encode_text(&payload)
    }
}

impl OwnerId {
    /// The text of the owner id: the text of a principal.
    pub fn to_text(&self) -> (text: String)
        ensures
            text@ == principal_text(self@),
    {
        let bytes = self.to_vec();
        proof {
            self.lemma_len_bound();
        }
        principal_to_text(&bytes)
    }
}

proof fn lemma_significant_len(s: Seq<u8>)
    ensures
        significant(s).len() <= s.len(),
    decreases s.len(),
{
    if s.len() == 0 || s[0] != 0 {
    } else {
        lemma_significant_len(s.skip(1));
    }
}

proof fn lemma_suffix_len(subaccount: Seq<u8>)
    ensures
        subaccount_suffix(subaccount).len() <= subaccount.len() + 2,
{
    lemma_significant_len(subaccount);
}

/// The tag that opens every owner id made from a mint index.
pub open spec fn mint_tag() -> Seq<u8> {
    seq![10u8, 115u8, 108u8, 100u8]
}

/// The bytes of the owner id that stands for mint number `mint` of the
/// registry `registry`: the tag, the registry's bytes, the number in four
/// bytes, most significant first, and the marker byte 1.
pub open spec fn mint_id_bytes(registry: Seq<u8>, mint: u32) -> Seq<u8> {
    mint_tag() + registry + be32(mint) + seq![1u8]
}

/// The mint number that the last five bytes of `id` hold before the marker.
pub open spec fn mint_index_of(id: Seq<u8>) -> int {
    from_be32(id.subrange(id.len() - 5, id.len() - 1))
}

/// Convert between an owner id and the mint index that it was made from.
pub trait MintIndex: Sized {
    /// The bytes of the identity.
    spec fn id_bytes(&self) -> Seq<u8>;

    /// The identity for mint number `mint` of `registry`. It fails when the
    /// registry's identity is longer than 20 bytes, for then the result would
    /// not fit in 29.
    fn from_mint_index(registry: &OwnerId, mint: u32) -> (r: Result<Self, IdentityError>)
        ensures
            registry@.len() <= 20 ==> r is Ok && r->Ok_0.id_bytes() == mint_id_bytes(
                registry@,
                mint,
            ),
            registry@.len() > 20 ==> r is Err && r->Err_0 == IdentityError::InvalidIdentity,
    ;

    /// The mint number in an identity: the four bytes before its last one. It
    /// fails on an identity of fewer than five bytes.
    fn to_mint_index(&self) -> (r: Result<u32, IdentityError>)
        ensures
            self.id_bytes().len() >= 5 ==> r == Ok::<u32, IdentityError>(
                mint_index_of(self.id_bytes()) as u32,
            ),
            self.id_bytes().len() < 5 ==> r == Err::<u32, IdentityError>(
                IdentityError::InvalidIdentity,
            ),
    ;
}

impl MintIndex for OwnerId {
    open spec fn id_bytes(&self) -> Seq<u8> {
        self@
    }

    fn from_mint_index(registry: &OwnerId, mint: u32) -> (r: Result<Self, IdentityError>) {
        if registry.len() > 20 {
            return Err(IdentityError::InvalidIdentity);
        }
        let mut bytes: Vec<u8> = Vec::new();
        bytes.push(10);
        bytes.push(115);
        bytes.push(108);
        bytes.push(100);
        let own = registry.to_vec();
        append_bytes(&mut bytes, &own);
        push_be32(&mut bytes, mint);
        bytes.push(1);
        assert(bytes@ =~= mint_id_bytes(registry@, mint));
        OwnerId::from_slice(bytes.as_slice())
    }

    fn to_mint_index(&self) -> (r: Result<u32, IdentityError>) {
        let n = self.len();
        if n < 5 {
            return Err(IdentityError::InvalidIdentity);
        }
        let bytes = self.to_vec();
        let x = read_be32(bytes.as_slice(), n - 5);
        Ok(x)
    }
}

/// The mint number that follows the one of `last`, the identity that was
/// minted last: 0 where nothing was minted yet. It fails where `last` holds
/// no mint number, or the greatest one.
pub fn next_mint_index(last: Option<&OwnerId>) -> (r: Result<u32, IdentityError>)
    ensures
        last is None ==> r == Ok::<u32, IdentityError>(0),
        last is Some && last->Some_0@.len() >= 5 && mint_index_of(last->Some_0@) < u32::MAX ==> r
            == Ok::<u32, IdentityError>((mint_index_of(last->Some_0@) + 1) as u32),
        last is Some && (last->Some_0@.len() < 5 || mint_index_of(last->Some_0@) >= u32::MAX)
            ==> r == Err::<u32, IdentityError>(IdentityError::InvalidIdentity),
{
    match last {
        None => Ok(0),
        Some(id) => match id.to_mint_index() {
            Ok(mint) => {
                proof {
                    let n = id@.len() as int;
                    crate::bytes::lemma_from_be32_bytes(id@.subrange(n - 5, n - 1));
                }
                if mint == u32::MAX {
                    Err(IdentityError::InvalidIdentity)
                } else {
                    Ok(mint + 1)
                }
            },
            Err(e) => Err(e),
        },
    }
}

/// The mint number read from an identity made by `from_mint_index` is the
/// number that it was made from.
pub proof fn lemma_mint_index_round_trip(registry: Seq<u8>, mint: u32)
    ensures
        mint_id_bytes(registry, mint).len() == registry.len() + 9,
        mint_index_of(mint_id_bytes(registry, mint)) == mint,
{
    let id = mint_id_bytes(registry, mint);
    lemma_be32_round_trip(mint);
    assert(id.subrange(id.len() - 5, id.len() - 1) =~= be32(mint));
}

} // verus!
