//! Finite sets of names.

use vstd::prelude::*;

use crate::text::chars_of;

verus! {

/// A finite set of names, kept in the order in which they were added.
#[derive(Debug)]
pub struct NameSet {
    names: Vec<String>,
}

impl View for NameSet {
    type V = Set<Seq<char>>;

    closed spec fn view(&self) -> Set<Seq<char>> {
        self.texts().to_set()
    }
}

impl NameSet {
    /// The names in the order in which they were added.
    pub closed spec fn texts(&self) -> Seq<Seq<char>> {
        self.names@.map_values(|s: String| s@)
    }

    #[verifier::type_invariant]
    closed spec fn distinct(&self) -> bool {
        self.texts().no_duplicates()
    }

    pub fn new() -> (s: Self)
        ensures
            s@ == Set::<Seq<char>>::empty(),
            s.texts() == Seq::<Seq<char>>::empty(),
    {
        let s = NameSet { names: Vec::new() };
        assert(s.texts() =~= Seq::<Seq<char>>::empty());
        assert(s@ =~= Set::<Seq<char>>::empty());
        s
    }

    pub fn contains(&self, name: &str) -> (found: bool)
        ensures
            found == self@.contains(name@),
    {
        let mut i: usize = 0;
        while i < self.names.len()
            invariant
                i <= self.names.len(),
                forall|j: int| 0 <= j < i ==> self.texts()[j] != name@,
            decreases self.names.len() - i,
        {
            if str_eq(self.names[i].as_str(), name) {
                assert(self.texts()[i as int] == name@);
                return true;
            }
            i += 1;
        }
        false
    }

    /// Adds `name`; says whether it was new.
    pub fn insert(&mut self, name: String) -> (fresh: bool)
        ensures
            final(self)@ == old(self)@.insert(name@),
            fresh == !old(self)@.contains(name@),
            final(self).texts() == if fresh {
                old(self).texts().push(name@)
            } else {
                old(self).texts()
            },
    {
        proof {
            use_type_invariant(&*self);
        }
        if self.contains(name.as_str()) {
            assert(self@.insert(name@) =~= self@);
            false
        } else {
            let ghost before = self.texts();
            let mut taken = NameSet { names: Vec::new() };
            assert(taken.texts() =~= Seq::<Seq<char>>::empty());
            std::mem::swap(self, &mut taken);
            proof {
                use_type_invariant(&taken);
                assert(taken.texts() == before);
                assert(!before.contains(name@));
            }
            let mut names = taken.names;
            names.push(name);
            proof {
                let after = names@.map_values(|s: String| s@);
                assert(after =~= before.push(name@));
                assert forall|i: int, j: int|
                    0 <= i < after.len() && 0 <= j < after.len() && i != j implies after[i]
                    != after[j] by {
                    if i < before.len() {
                        assert(before.contains(after[i]));
                    }
                    if j < before.len() {
                        assert(before.contains(after[j]));
                    }
                }
            }
            *self = NameSet { names };
            assert(self.texts() =~= before.push(name@));
            assert(self.texts().to_set() =~= before.to_set().insert(name@)) by {
                vstd::seq_lib::lemma_seq_contains_after_push(before, name@, name@);
                assert forall|x: Seq<char>|
                    self.texts().to_set().contains(x) == before.to_set().insert(name@).contains(
                        x,
                    ) by {
                    vstd::seq_lib::lemma_seq_contains_after_push(before, name@, x);
                }
            }
            true
        }
    }

    /// Adds every name of `other`.
    pub fn extend(&mut self, other: &NameSet)
        ensures
            final(self)@ == old(self)@.union(other@),
    {
        let mut i: usize = 0;
        while i < other.names.len()
            invariant
                i <= other.names.len(),
                self@ == old(self)@.union(other.texts().take(i as int).to_set()),
            decreases other.names.len() - i,
        {
            let ghost before = self@;
            self.insert(other.names[i].clone());
            proof {
                let done = other.texts().take(i as int);
                let next = other.texts().take(i + 1);
                assert(next =~= done.push(other.texts()[i as int]));
                assert forall|x: Seq<char>|
                    next.to_set().contains(x) == done.to_set().insert(
                        other.texts()[i as int],
                    ).contains(x) by {
                    vstd::seq_lib::lemma_seq_contains_after_push(done, other.texts()[i as int], x);
                }
                assert(self@ =~= old(self)@.union(next.to_set()));
            }
            i += 1;
        }
        proof {
            assert(other.texts().take(other.names.len() as int) =~= other.texts());
            assert(old(self)@.union(Seq::<Seq<char>>::empty().to_set()) =~= old(self)@);
        }
    }

    pub fn len(&self) -> (n: usize)
        ensures
            n == self@.len(),
    {
        proof {
            use_type_invariant(self);
            self.texts().unique_seq_to_set();
        }
        self.names.len()
    }

    pub fn is_empty(&self) -> (b: bool)
        ensures
            b == (self@.len() == 0),
    {
        proof {
            use_type_invariant(self);
            self.texts().unique_seq_to_set();
        }
        self.names.len() == 0
    }

    /// The names, in the order in which they were added.
    pub fn to_vec(&self) -> (r: Vec<String>)
        ensures
            r@.map_values(|s: String| s@) == self.texts(),
    {
        let mut out: Vec<String> = Vec::new();
        let mut i: usize = 0;
        while i < self.names.len()
            invariant
                i <= self.names.len(),
                out@ == self.names@.take(i as int),
            decreases self.names.len() - i,
        {
            out.push(self.names[i].clone());
            assert(self.names@.take(i + 1) =~= self.names@.take(i as int).push(
                self.names@[i as int],
            ));
            i += 1;
        }
        assert(self.names@.take(self.names.len() as int) =~= self.names@);
        out
    }
}

impl Default for NameSet {
    fn default() -> (s: Self)
        ensures
            s@ == Set::<Seq<char>>::empty(),
    {
        NameSet::new()
    }
}

impl Clone for NameSet {
    fn clone(&self) -> (r: Self)
        ensures
            r@ == self@,
            r.texts() == self.texts(),
    {
        proof {
            use_type_invariant(self);
        }
        let names = self.to_vec();
        let r = NameSet { names };
        r
    }
}

/// Whether two texts are the same, character by character.
pub(crate) fn str_eq(a: &str, b: &str) -> (r: bool)
    ensures
        r == (a@ == b@),
{
    let left = chars_of(a);
    let right = chars_of(b);
    if left.len() != right.len() {
        return false;
    }
    let mut i: usize = 0;
    while i < left.len()
        invariant
            i <= left.len(),
            left.len() == right.len(),
            left@ == a@,
            right@ == b@,
            forall|j: int| 0 <= j < i ==> left@[j] == right@[j],
        decreases left.len() - i,
    {
        if left[i] != right[i] {
            assert(a@[i as int] != b@[i as int]);
            return false;
        }
        i += 1;
    }
    assert(a@ =~= b@);
    true
}

} // verus!
