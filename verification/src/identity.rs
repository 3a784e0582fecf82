//! Identities: owner ids, subaccounts and accounts.
//!
//! An owner id is an opaque byte string of at most 29 bytes. An account pairs an
//! owner id with an optional 32-byte subaccount, where the all-zero subaccount
//! means the same as no subaccount at all.

use vstd::prelude::*;
use vstd::std_specs::cmp::PartialEqSpec;

verus! {

/// Greatest number of bytes an owner id can hold.
pub const MAX_OWNER_BYTES: usize = 29;

/// Number of bytes of a subaccount.
pub const SUBACCOUNT_BYTES: usize = 32;

/// Why a byte string is not an identity.
#[derive(Clone, Copy, Debug, PartialEq, Eq, Structural)]
pub enum IdentityError {
    /// The bytes are too many, or too few, for the identity asked for.
    InvalidIdentity,
}

/// The 32 zero bytes: what the default subaccount holds.
pub open spec fn zero_subaccount() -> Seq<u8> {
    Seq::new(32, |i: int| 0u8)
}

/// Subaccount is an arbitrary 32-byte byte array.
#[derive(Clone, Copy, Debug)]
pub struct Subaccount(pub [u8; 32]);

impl View for Subaccount {
    type V = Seq<u8>;

    open spec fn view(&self) -> Seq<u8> {
        self.0@
    }
}

impl Subaccount {
    /// The subaccount that is used by default: 32 zero bytes.
    pub fn default_subaccount() -> (s: Subaccount)
        ensures
            s@ == zero_subaccount(),
    {
        let s = Subaccount([0u8; 32]);
        assert(s@ =~= zero_subaccount());
        s
    }

    /// Whether every byte is zero.
    pub fn is_default(&self) -> (r: bool)
        ensures
            r == (self@ == zero_subaccount()),
    {
        let mut i: usize = 0;
        while i < 32
            invariant
                i <= 32,
                forall|j: int| 0 <= j < i ==> self.0@[j] == 0u8,
            decreases 32 - i,
        {
            if self.0[i] != 0 {
                assert(zero_subaccount()[i as int] == 0u8);
                return false;
            }
            i += 1;
        }
        assert(self@ =~= zero_subaccount());
        true
    }
}

impl PartialEq for Subaccount {
    fn eq(&self, other: &Self) -> (r: bool) {
        let mut i: usize = 0;
        while i < 32
            invariant
                i <= 32,
                forall|j: int| 0 <= j < i ==> self.0@[j] == other.0@[j],
            decreases 32 - i,
        {
            if self.0[i] != other.0[i] {
                return false;
            }
            i += 1;
        }
        assert(self.0@ =~= other.0@);
        true
    }
}

impl vstd::std_specs::cmp::PartialEqSpecImpl for Subaccount {
    open spec fn obeys_eq_spec() -> bool {
        true
    }

    open spec fn eq_spec(&self, other: &Self) -> bool {
        self@ == other@
    }
}

impl Eq for Subaccount {

}

/// An opaque identity: between 0 and 29 bytes.
#[derive(Clone, Copy, Debug)]
pub struct OwnerId {
    len: u8,
    bytes: [u8; 29],
}

impl View for OwnerId {
    type V = Seq<u8>;

    closed spec fn view(&self) -> Seq<u8> {
        self.bytes@.take(if self.len <= 29 { self.len as int } else { 29 })
    }
}

impl OwnerId {
    #[verifier::type_invariant]
    spec fn well_formed(self) -> bool {
        self.len <= 29
    }

    /// No identity is longer than 29 bytes.
    pub broadcast proof fn lemma_len_bound(self)
        ensures
            #[trigger] self@.len() <= 29,
    {
    }

    /// The identity of no bytes.
    pub fn empty() -> (o: OwnerId)
        ensures
            o@ == Seq::<u8>::empty(),
    {
        let o = OwnerId { len: 0, bytes: [0u8; 29] };
        assert(o@ =~= Seq::<u8>::empty());
        o
    }

    /// The identity that holds the bytes of `slice`, which fails when they are
    /// more than 29.
    pub fn from_slice(slice: &[u8]) -> (r: Result<OwnerId, IdentityError>)
        ensures
            slice@.len() <= 29 ==> r.is_ok() && r.unwrap()@ == slice@,
            slice@.len() > 29 ==> r == Err::<OwnerId, IdentityError>(IdentityError::InvalidIdentity),
    {
        let n = slice.len();
        if n > MAX_OWNER_BYTES {
            return Err(IdentityError::InvalidIdentity);
        }
        let mut bytes = [0u8; 29];
        let mut i: usize = 0;
        while i < n
            invariant
                i <= n,
                n == slice@.len(),
                n <= 29,
                forall|j: int| 0 <= j < i ==> bytes@[j] == slice@[j],
            decreases n - i,
        {
            bytes[i] = slice[i];
            i += 1;
        }
        let o = OwnerId { len: n as u8, bytes };
        assert(o@ =~= slice@);
        Ok(o)
    }

    /// Number of bytes of the identity.
    pub fn len(&self) -> (n: usize)
        ensures
            n == self@.len(),
            n <= 29,
    {
        proof {
            use_type_invariant(self);
        }
        self.len as usize
    }

    /// The byte at index `i`.
    pub fn byte(&self, i: usize) -> (b: u8)
        requires
            i < self@.len(),
        ensures
            b == self@[i as int],
    {
        proof {
            use_type_invariant(self);
        }
        self.bytes[i]
    }

    /// The bytes of the identity.
    pub fn to_vec(&self) -> (v: Vec<u8>)
        ensures
            v@ == self@,
    {
        proof {
            use_type_invariant(self);
        }
        let n = self.len as usize;
        let mut v: Vec<u8> = Vec::new();
        let mut i: usize = 0;
        while i < n
            invariant
                i <= n,
                n == self@.len(),
                n <= 29,
                v@ == self@.take(i as int),
            decreases n - i,
        {
            v.push(self.bytes[i]);
            assert(v@ =~= self@.take(i + 1));
            i += 1;
        }
        assert(self@.take(n as int) =~= self@);
        v
    }
}

impl PartialEq for OwnerId {
    fn eq(&self, other: &Self) -> (r: bool) {
        proof {
            use_type_invariant(self);
            use_type_invariant(other);
        }
        if self.len != other.len {
            return false;
        }
        let n = self.len as usize;
        let mut i: usize = 0;
        while i < n
            invariant
                i <= n,
                n == self@.len(),
                n == other@.len(),
                n <= 29,
                forall|j: int| 0 <= j < i ==> self@[j] == other@[j],
            decreases n - i,
        {
            if self.bytes[i] != other.bytes[i] {
                assert(self@[i as int] != other@[i as int]);
                return false;
            }
            i += 1;
        }
        assert(self@ =~= other@);
        true
    }
}

impl vstd::std_specs::cmp::PartialEqSpecImpl for OwnerId {
    open spec fn obeys_eq_spec() -> bool {
        true
    }

    open spec fn eq_spec(&self, other: &Self) -> bool {
        self@ == other@
    }
}

impl Eq for OwnerId {

}

/// The bytes of a subaccount, all zero where there is none.
pub open spec fn subaccount_or_default(subaccount: Option<Subaccount>) -> Seq<u8> {
    match subaccount {
        Some(s) => s@,
        None => zero_subaccount(),
    }
}

/// What an account is: the owner's bytes, and the 32 bytes of its subaccount,
/// all zero where it has none.
pub struct AccountView {
    pub owner: Seq<u8>,
    pub subaccount: Seq<u8>,
}

/// An owner id with an optional subaccount.
#[derive(Clone, Copy, Debug)]
pub struct Account {
    pub owner: OwnerId,
    pub subaccount: Option<Subaccount>,
}

impl View for Account {
    type V = AccountView;

    open spec fn view(&self) -> AccountView {
        AccountView {
            owner: self.owner@,
            subaccount: subaccount_or_default(self.subaccount),
        }
    }
}

impl Account {
    /// The account of `owner` and `subaccount`, in which the default
    /// subaccount is written as no subaccount.
    pub fn new(owner: OwnerId, subaccount: Option<Subaccount>) -> (a: Account)
        ensures
            a.owner == owner,
            a@ == (Account { owner, subaccount })@,
            a.subaccount.is_none() <==> (Account { owner, subaccount })@.subaccount
                == zero_subaccount(),
            a.subaccount.is_some() ==> a.subaccount == subaccount,
    {
        match subaccount {
            Some(s) => {
                if s.is_default() {
                    Account { owner, subaccount: None }
                } else {
                    Account { owner, subaccount: Some(s) }
                }
            },
            None => Account { owner, subaccount: None },
        }
    }

    /// The minter account: the registry's own identity, without subaccount.
    pub fn minter(registry: OwnerId) -> (a: Account)
        ensures
            a.owner == registry,
            a.subaccount.is_none(),
            a@ == minter_view(registry@),
    {
        Account { owner: registry, subaccount: None }
    }
}

/// The minter account of the registry whose identity is `registry`.
pub open spec fn minter_view(registry: Seq<u8>) -> AccountView {
    AccountView { owner: registry, subaccount: zero_subaccount() }
}

impl PartialEq for Account {
    fn eq(&self, other: &Self) -> (r: bool) {
        if !(self.owner == other.owner) {
            return false;
        }
        let a = match self.subaccount {
            Some(s) => s,
            None => Subaccount::default_subaccount(),
        };
        let b = match other.subaccount {
            Some(s) => s,
            None => Subaccount::default_subaccount(),
        };
        a == b
    }
}

impl vstd::std_specs::cmp::PartialEqSpecImpl for Account {
    open spec fn obeys_eq_spec() -> bool {
        true
    }

    open spec fn eq_spec(&self, other: &Self) -> bool {
        self@ == other@
    }
}

impl Eq for Account {

}

/// An account with the all-zero subaccount is the account without subaccount:
/// the two have one view, and `==` holds between them.
pub proof fn lemma_default_subaccount_is_none(owner: OwnerId, subaccount: Subaccount)
    requires
        subaccount@ == zero_subaccount(),
    ensures
        (Account { owner, subaccount: Some(subaccount) })@ == (Account {
            owner,
            subaccount: None,
        })@,
        (Account { owner, subaccount: Some(subaccount) }).eq_spec(
            &Account { owner, subaccount: None },
        ),
{
}

} // verus!
