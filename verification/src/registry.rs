//! An insertion-ordered table of resources keyed by string id.
//!
//! The first entry inserted under an id wins: a duplicate id is refused, as
//! the resource loader does when two files declare the same key.

use vstd::prelude::*;

verus! {

/// The value under `id`, scanning `s` from entry `i` on.
pub open spec fn find_from<T>(s: Seq<(String, T)>, id: Seq<char>, i: int) -> Option<T>
    decreases s.len() - i,
{
    if i < 0 || i >= s.len() {
        None
    } else if s[i].0@ == id {
        Some(s[i].1)
    } else {
        find_from(s, id, i + 1)
    }
}

/// The value stored under `id`: the first entry with that key.
pub open spec fn spec_find<T>(s: Seq<(String, T)>, id: Seq<char>) -> Option<T> {
    find_from(s, id, 0)
}

/// `s` with every entry whose id already occurred earlier dropped.
pub open spec fn dedup_first<T>(s: Seq<(String, T)>) -> Seq<(String, T)>
    decreases s.len(),
{
    if s.len() == 0 {
        Seq::empty()
    } else {
        let rest = dedup_first(s.drop_last());
        if spec_find(rest, s.last().0@) is Some {
            rest
        } else {
            rest.push(s.last())
        }
    }
}

/// An insertion-ordered resource table with first-wins string keys.
pub struct Registry<T> {
    entries: Vec<(String, T)>,
}

impl<T> Registry<T> {
    pub closed spec fn view(&self) -> Seq<(String, T)> {
        self.entries@
    }

    pub fn new() -> (r: Registry<T>)
        ensures
            r@ =~= Seq::<(String, T)>::empty(),
    {
        Registry { entries: Vec::new() }
    }

    pub fn len(&self) -> (r: usize)
        ensures
            r == self@.len(),
    {
        self.entries.len()
    }

    /// Inserts `value` under `id` unless the id is already taken; returns
    /// whether the entry went in.
    pub fn insert(&mut self, id: String, value: T) -> (r: bool)
        ensures
            spec_find(old(self)@, id@) is Some ==> !r && final(self)@ == old(self)@,
            spec_find(old(self)@, id@) is None ==> r && final(self)@ == old(self)@.push(
                (id, value),
            ),
    {
        if self.contains(id.as_str()) {
            false
        } else {
            self.entries.push((id, value));
            true
        }
    }

    /// The resource stored under `id`, if any.
    pub fn get(&self, id: &str) -> (r: Option<&T>)
        ensures
            match r {
                Some(t) => spec_find(self@, id@) == Some(*t),
                None => spec_find(self@, id@) is None,
            },
    {
        let key: String = id.to_owned();
        let ghost s = self.entries@;
        let n: usize = self.entries.len();
        let mut i: usize = 0;
        while i < n
            invariant
                s == self.entries@,
                n == s.len(),
                0 <= i <= n,
                find_from(s, id@, 0) == find_from(s, id@, i as int),
                key@ == id@,
            decreases n - i,
        {
            let e = &self.entries[i];
            if e.0 == key {
                return Some(&e.1);
            }
            i = i + 1;
        }
        None
    }

    pub fn contains(&self, id: &str) -> (r: bool)
        ensures
            r == (spec_find(self@, id@) is Some),
    {
        match self.get(id) {
            Some(_) => true,
            None => false,
        }
    }

    /// All stored resources, in insertion order.
    pub fn values(&self) -> (r: Vec<&T>)
        ensures
            r@.len() == self@.len(),
            forall|i: int| 0 <= i < r@.len() ==> *(#[trigger] r@[i]) == self@[i].1,
    {
        let mut out: Vec<&T> = Vec::new();
        let n: usize = self.entries.len();
        let mut i: usize = 0;
        while i < n
            invariant
                n == self@.len(),
                0 <= i <= n,
                out@.len() == i,
                forall|j: int| 0 <= j < i ==> *(#[trigger] out@[j]) == self@[j].1,
            decreases n - i,
        {
            out.push(&self.entries[i].1);
            i = i + 1;
        }
        out
    }

    /// Builds a table from id/value pairs, keeping the first occurrence of
    /// each id, as the resource reader does for duplicate files.
    pub fn from_pairs(pairs: Vec<(String, T)>) -> (r: Registry<T>)
        ensures
            r@ == dedup_first(pairs@),
    {
        let mut reg: Registry<T> = Registry::new();
        let mut pairs = pairs;
        let ghost all = pairs@;
        let n: usize = pairs.len();
        let mut taken: usize = 0;
        proof {
            assert(all.take(0) =~= Seq::<(String, T)>::empty());
        }
        while pairs.len() > 0
            invariant
                n == all.len(),
                taken + pairs@.len() == all.len(),
                pairs@ =~= all.skip(taken as int),
                reg@ == dedup_first(all.take(taken as int)),
            decreases pairs@.len(),
        {
            let e = pairs.remove(0);
            proof {
                assert(e == all[taken as int]);
                assert(pairs@ =~= all.skip(taken as int + 1));
                assert(all.take(taken as int + 1).drop_last() =~= all.take(taken as int));
                assert(all.take(taken as int + 1).last() == all[taken as int]);
            }
            let _ = reg.insert(e.0, e.1);
            taken = taken + 1;
        }
        proof {
            assert(all.take(all.len() as int) =~= all);
        }
        reg
    }
}

} // verus!
