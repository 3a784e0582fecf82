//! A set of owner ids, kept as a list in which no id occurs twice.

use vstd::prelude::*;
use crate::identity::OwnerId;
use crate::types::ids_view;

verus! {

/// A finite set of owner ids.
#[derive(Debug)]
pub struct IdSet {
    ids: Vec<OwnerId>,
}

impl View for IdSet {
    type V = Set<Seq<u8>>;

    closed spec fn view(&self) -> Set<Seq<u8>> {
        ids_view(self.ids@).to_set()
    }
}

proof fn lemma_push_to_set(s: Seq<Seq<u8>>, x: Seq<u8>)
    ensures
        s.push(x).to_set() == s.to_set().insert(x),
{
    let t = s.push(x);
    assert forall|a: Seq<u8>| t.to_set().contains(a) <==> s.to_set().insert(x).contains(a) by {
        if t.contains(a) {
            let i = choose|i: int| 0 <= i < t.len() && t[i] == a;
            if i < s.len() {
                assert(s[i] == a);
                assert(s.contains(a));
            }
        }
        if s.contains(a) {
            let i = choose|i: int| 0 <= i < s.len() && s[i] == a;
            assert(t[i] == a);
        }
        if a == x {
            assert(t[s.len() as int] == a);
        }
    }
    assert(t.to_set() =~= s.to_set().insert(x));
}

proof fn lemma_remove_to_set(s: Seq<Seq<u8>>, i: int)
    requires
        0 <= i < s.len(),
        s.no_duplicates(),
    ensures
        s.remove(i).to_set() == s.to_set().remove(s[i]),
        s.remove(i).no_duplicates(),
{
    let t = s.remove(i);
    assert forall|a: Seq<u8>| t.to_set().contains(a) <==> s.to_set().remove(s[i]).contains(
        a,
    ) by {
        if t.contains(a) {
            let j = choose|j: int| 0 <= j < t.len() && t[j] == a;
            if j < i {
                assert(s[j] == a);
            } else {
                assert(s[j + 1] == a);
            }
            assert(s.contains(a));
        }
        if s.contains(a) && a != s[i] {
            let j = choose|j: int| 0 <= j < s.len() && s[j] == a;
            if j < i {
                assert(t[j] == a);
            } else {
                assert(t[j - 1] == a);
            }
        }
    }
    assert(t.to_set() =~= s.to_set().remove(s[i]));
}

impl IdSet {
    #[verifier::type_invariant]
    spec fn distinct(self) -> bool {
        ids_view(self.ids@).no_duplicates()
    }

    /// A set of ids is finite.
    pub proof fn lemma_finite(&self)
        ensures
            self@.finite(),
    {
        vstd::seq_lib::seq_to_set_is_finite(ids_view(self.ids@));
    }

    /// The empty set.
    pub fn new() -> (s: IdSet)
        ensures
            s@ == Set::<Seq<u8>>::empty(),
    {
        let s = IdSet { ids: Vec::new() };
        assert(ids_view(s.ids@) =~= Seq::<Seq<u8>>::empty());
        assert(s@ =~= Set::<Seq<u8>>::empty());
        s
    }

    /// Number of ids in the set.
    pub fn len(&self) -> (n: usize)
        ensures
            n == self@.len(),
            self@.finite(),
    {
        proof {
            use_type_invariant(self);
            ids_view(self.ids@).unique_seq_to_set();
            vstd::seq_lib::seq_to_set_is_finite(ids_view(self.ids@));
        }
        self.ids.len()
    }

    /// The place of `id` in the list, if it is in the set.
    fn position(&self, id: &OwnerId) -> (r: Option<usize>)
        ensures
            match r {
                Some(i) => i < self.ids@.len() && self.ids@[i as int]@ == id@,
                None => !self@.contains(id@),
            },
    {
        let n = self.ids.len();
        let mut i: usize = 0;
        while i < n
            invariant
                i <= n,
                n == self.ids@.len(),
                forall|j: int| 0 <= j < i ==> self.ids@[j]@ != id@,
            decreases n - i,
        {
            if self.ids[i] == *id {
                return Some(i);
            }
            i += 1;
        }
        proof {
            let s = ids_view(self.ids@);
            if s.contains(id@) {
                let j = choose|j: int| 0 <= j < s.len() && s[j] == id@;
                assert(self.ids@[j]@ == id@);
            }
        }
        None
    }

    /// Whether `id` is in the set.
    pub fn contains(&self, id: &OwnerId) -> (r: bool)
        ensures
            r == self@.contains(id@),
    {
        match self.position(id) {
            Some(i) => {
                proof {
                    let s = ids_view(self.ids@);
                    assert(s[i as int] == id@);
                    assert(s.contains(id@));
                }
                true
            },
            None => false,
        }
    }

    /// Adds `id` to the set, and tells whether it was new.
    pub fn insert(&mut self, id: OwnerId) -> (added: bool)
        ensures
            final(self)@ == old(self)@.insert(id@),
            added == !old(self)@.contains(id@),
    {
        if self.contains(&id) {
            assert(self@.insert(id@) =~= self@);
            return false;
        }
        proof {
            use_type_invariant(&*self);
            let s = ids_view(self.ids@);
            lemma_push_to_set(s, id@);
            assert(ids_view(self.ids@.push(id)) =~= s.push(id@));
            assert(s.push(id@).no_duplicates()) by {
                assert forall|a: int, b: int|
                    0 <= a < s.len() + 1 && 0 <= b < s.len() + 1 && a != b implies s.push(
                    id@,
                )[a] != s.push(id@)[b] by {
                    if a < s.len() {
                        assert(s.contains(s[a]));
                    }
                    if b < s.len() {
                        assert(s.contains(s[b]));
                    }
                }
            }
        }
        let mut ids = self.copy_ids();
        ids.push(id);
        self.ids = ids;
        true
    }

    /// Takes `id` out of the set, and tells whether it was in it.
    pub fn remove(&mut self, id: &OwnerId) -> (removed: bool)
        ensures
            final(self)@ == old(self)@.remove(id@),
            removed == old(self)@.contains(id@),
    {
        match self.position(id) {
            Some(i) => {
                proof {
                    use_type_invariant(&*self);
                    let s = ids_view(self.ids@);
                    assert(s[i as int] == id@);
                    assert(s.contains(id@));
                    lemma_remove_to_set(s, i as int);
                    assert(ids_view(self.ids@.remove(i as int)) =~= s.remove(i as int));
                }
                let mut ids = self.copy_ids();
                ids.remove(i);
                self.ids = ids;
                true
            },
            None => {
                assert(self@.remove(id@) =~= self@);
                false
            },
        }
    }

    /// A copy of the list.
    fn copy_ids(&self) -> (v: Vec<OwnerId>)
        ensures
            v@ == self.ids@,
    {
        let n = self.ids.len();
        let mut v: Vec<OwnerId> = Vec::new();
        let mut i: usize = 0;
        while i < n
            invariant
                i <= n,
                n == self.ids@.len(),
                v@ == self.ids@.take(i as int),
            decreases n - i,
        {
            v.push(self.ids[i]);
            assert(v@ =~= self.ids@.take(i + 1));
            i += 1;
        }
        assert(self.ids@.take(n as int) =~= self.ids@);
        v
    }

    /// The set of the ids of `ids`, where none of them occurs twice.
    pub fn from_vec(ids: &Vec<OwnerId>) -> (r: Option<IdSet>)
        ensures
            ids_view(ids@).no_duplicates() ==> r is Some && r->Some_0@ == ids_view(ids@).to_set(),
            !ids_view(ids@).no_duplicates() ==> r is None,
    {
        let n = ids.len();
        let ghost all = ids_view(ids@);
        let mut set = IdSet::new();
        let mut i: usize = 0;
        assert(all.take(0) =~= Seq::<Seq<u8>>::empty());
        assert(all.take(0).to_set() =~= Set::<Seq<u8>>::empty());
        while i < n
            invariant
                i <= n,
                n == ids@.len(),
                all == ids_view(ids@),
                all.take(i as int).no_duplicates(),
                set@ == all.take(i as int).to_set(),
            decreases n - i,
        {
            let ghost seen = all.take(i as int);
            proof {
                assert(all.take(i + 1) =~= seen.push(ids@[i as int]@));
                lemma_push_to_set(seen, ids@[i as int]@);
            }
            if !set.insert(ids[i]) {
                proof {
                    assert(seen.contains(all[i as int]));
                    let j = choose|j: int| 0 <= j < seen.len() && seen[j] == all[i as int];
                    assert(all[j] == all[i as int]);
                }
                return None;
            }
            proof {
                let next = all.take(i + 1);
                assert forall|a: int, b: int|
                    0 <= a < next.len() && 0 <= b < next.len() && a != b implies next[a]
                    != next[b] by {
                    if a < i {
                        assert(seen.contains(seen[a]));
                    }
                    if b < i {
                        assert(seen.contains(seen[b]));
                    }
                }
            }
            i += 1;
        }
        assert(all.take(n as int) =~= all);
        Some(set)
    }

    /// The ids of the set, each once.
    pub fn to_vec(&self) -> (v: Vec<OwnerId>)
        ensures
            ids_view(v@).to_set() == self@,
            ids_view(v@).no_duplicates(),
            v@.len() == self@.len(),
    {
        proof {
            use_type_invariant(self);
            ids_view(self.ids@).unique_seq_to_set();
        }
        self.copy_ids()
    }

    /// A copy of the set.
    pub fn duplicate(&self) -> (s: IdSet)
        ensures
            s@ == self@,
    {
        proof {
            use_type_invariant(self);
        }
        let ids = self.copy_ids();
        IdSet { ids }
    }
}

impl Clone for IdSet {
    fn clone(&self) -> (s: Self)
        ensures
            s@ == self@,
    {
        self.duplicate()
    }
}

} // verus!
