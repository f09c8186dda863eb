//! Weighted random selection over an ordered entry table.
//!
//! Entries are visited in their fixed table order, so a draw depends only on
//! the weights and the state of the random source — never on any hidden
//! iteration order.  An empty table, or one whose weights are all zero,
//! yields no selection rather than failing.

use vstd::prelude::*;
use crate::errors::GenError;
use crate::rng::{ReproducibleRandom, draw_value, next_state};

verus! {

/// Sum of the weights of `s`.
pub open spec fn total_weight<T>(s: Seq<(T, u32)>) -> int
    decreases s.len(),
{
    if s.len() == 0 {
        0
    } else {
        total_weight(s.drop_last()) + s.last().1
    }
}

/// The index selected by a roll of `roll`, scanning from entry `i` with the
/// weight of entries before `i` already accumulated in `acc`.
pub open spec fn scan_index<T>(s: Seq<(T, u32)>, i: int, acc: int, roll: int) -> int
    decreases s.len() - i,
{
    if i < 0 || i >= s.len() {
        i
    } else if roll < acc + s[i].1 {
        i
    } else {
        scan_index(s, i + 1, acc + s[i].1, roll)
    }
}

/// The index a roll of `roll` selects: the first index whose cumulative
/// weight exceeds `roll`.
pub open spec fn weighted_index<T>(s: Seq<(T, u32)>, roll: int) -> int {
    scan_index(s, 0, 0, roll)
}

pub proof fn lemma_total_weight_take_succ<T>(s: Seq<(T, u32)>, i: int)
    requires
        0 <= i < s.len(),
    ensures
        total_weight(s.take(i + 1)) == total_weight(s.take(i)) + s[i].1,
{
    assert(s.take(i + 1).drop_last() =~= s.take(i));
    assert(s.take(i + 1).last() == s[i]);
}

pub proof fn lemma_total_weight_nonneg<T>(s: Seq<(T, u32)>)
    ensures
        total_weight(s) >= 0,
    decreases s.len(),
{
    if s.len() > 0 {
        lemma_total_weight_nonneg(s.drop_last());
    }
}

/// Two entry tables with the same weights entry for entry have the same
/// total, whatever they carry beside the weights.
pub proof fn lemma_total_weight_congruent<A, B>(a: Seq<(A, u32)>, b: Seq<(B, u32)>)
    requires
        a.len() == b.len(),
        forall|i: int| 0 <= i < a.len() ==> (#[trigger] a[i]).1 == b[i].1,
    ensures
        total_weight(a) == total_weight(b),
    decreases a.len(),
{
    if a.len() > 0 {
        assert forall|i: int|
            0 <= i < a.drop_last().len() implies (#[trigger] a.drop_last()[i]).1
            == b.drop_last()[i].1 by {
            assert(a[i].1 == b[i].1);
        }
        lemma_total_weight_congruent(a.drop_last(), b.drop_last());
        assert(a.last().1 == b.last().1);
    }
}

/// The weight of a prefix never exceeds the weight of the whole table.
pub proof fn lemma_total_weight_take_le<T>(s: Seq<(T, u32)>, i: int)
    requires
        0 <= i <= s.len(),
    ensures
        total_weight(s.take(i)) <= total_weight(s),
    decreases s.len() - i,
{
    if i == s.len() {
        assert(s.take(i) =~= s);
    } else {
        lemma_total_weight_take_succ(s, i);
        lemma_total_weight_take_le(s, i + 1);
    }
}

/// A roll below the total weight always lands on an entry with a positive
/// weight, inside the table.
pub proof fn lemma_scan_index_in_range<T>(s: Seq<(T, u32)>, i: int, acc: int, roll: int)
    requires
        0 <= i <= s.len(),
        acc == total_weight(s.take(i)),
        acc <= roll < total_weight(s),
    ensures
        i <= scan_index(s, i, acc, roll) < s.len(),
        s[scan_index(s, i, acc, roll)].1 > 0,
    decreases s.len() - i,
{
    assert(s.take(s.len() as int) =~= s);
    if i == s.len() {
        assert(false);
    } else if roll < acc + s[i].1 {
    } else {
        lemma_total_weight_take_succ(s, i);
        lemma_scan_index_in_range(s, i + 1, acc + s[i].1, roll);
    }
}

/// An ordered table of weighted entries, drawn from with weight-proportional
/// probability.
pub struct WeightedList<T> {
    entries: Vec<(T, u32)>,
    total: u32,
}

impl<T> WeightedList<T> {
    pub closed spec fn view(&self) -> Seq<(T, u32)> {
        self.entries@
    }

    /// The stored running total matches the entry weights.
    pub closed spec fn wf(&self) -> bool {
        self.total == total_weight(self.entries@)
    }

    pub closed spec fn spec_total(&self) -> int {
        self.total as int
    }

    /// Builds a table from already-resolved entries.  Refuses a table whose
    /// total weight cannot be held in a draw (a machine limit, not a policy).
    pub fn new(entries: Vec<(T, u32)>) -> (r: Result<WeightedList<T>, GenError>)
        ensures
            match r {
                Ok(l) => l.wf() && l@ == entries@ && total_weight(entries@) <= u32::MAX
                    && l.spec_total() == total_weight(entries@),
                Err(e) => e == GenError::InvalidData && total_weight(entries@) > u32::MAX,
            },
    {
        let n: usize = entries.len();
        let mut total: u64 = 0;
        let mut i: usize = 0;
        proof {
            assert(entries@.take(0) =~= Seq::<(T, u32)>::empty());
        }
        while i < n
            invariant
                n == entries@.len(),
                0 <= i <= n,
                total == total_weight(entries@.take(i as int)),
                total <= u32::MAX,
            decreases n - i,
        {
            proof {
                lemma_total_weight_take_succ(entries@, i as int);
            }
            let w: u32 = entries[i].1;
            total = total + (w as u64);
            i = i + 1;
            if total > u32::MAX as u64 {
                proof {
                    lemma_total_weight_take_le(entries@, i as int);
                }
                return Err(GenError::InvalidData);
            }
        }
        proof {
            assert(entries@.take(n as int) =~= entries@);
        }
        Ok(WeightedList { entries, total: total as u32 })
    }

    pub fn len(&self) -> (r: usize)
        ensures
            r == self@.len(),
    {
        self.entries.len()
    }

    pub fn is_empty(&self) -> (r: bool)
        ensures
            r == (self@.len() == 0),
    {
        self.entries.len() == 0
    }

    /// The entry at `index`.
    pub fn get(&self, index: usize) -> (r: &T)
        requires
            index < self@.len(),
        ensures
            *r == self@[index as int].0,
    {
        &self.entries[index].0
    }

    /// Draws one entry with weight-proportional probability.  Returns no
    /// selection exactly when the total weight is zero (in particular for an
    /// empty table, or one whose weights are all zero); the random source is
    /// then left untouched.  Otherwise the selected index is a fixed
    /// function of the weights and the state of the random source, and its
    /// entry has a positive weight.
    pub fn pick_index(&self, rand: &mut ReproducibleRandom) -> (r: Option<usize>)
        requires
            self.wf(),
        ensures
            r is None <==> total_weight(self@) == 0,
            total_weight(self@) == 0 ==> *final(rand) == *old(rand),
            total_weight(self@) > 0 ==> {
                let roll = draw_value(old(rand).spec_state(), 0, total_weight(self@) as u32);
                &&& r == Some(weighted_index(self@, roll as int) as usize)
                &&& final(rand).spec_state() == next_state(old(rand).spec_state())
                &&& final(rand).spec_seed() == old(rand).spec_seed()
            },
            r matches Some(i) ==> i < self@.len() && self@[i as int].1 > 0,
    {
        proof {
            lemma_total_weight_nonneg(self.entries@);
        }
        if self.total == 0 {
            return None;
        }
        let roll: u32 = rand.gen(0, self.total);
        let ghost s = self.entries@;
        proof {
            lemma_scan_index_in_range(s, 0, 0, roll as int);
            assert(s.take(0) =~= Seq::<(T, u32)>::empty());
        }
        let n: usize = self.entries.len();
        let mut i: usize = 0;
        let mut acc: u64 = 0;
        while i < n
            invariant
                self.wf(),
                s == self.entries@,
                n == s.len(),
                rand.spec_state() == next_state(old(rand).spec_state()),
                rand.spec_seed() == old(rand).spec_seed(),
                roll == draw_value(old(rand).spec_state(), 0, self.total),
                0 <= i <= n,
                acc == total_weight(s.take(i as int)),
                acc <= roll < total_weight(s),
                scan_index(s, 0, 0, roll as int) == scan_index(s, i as int, acc as int, roll as int),
                i <= scan_index(s, i as int, acc as int, roll as int) < s.len(),
            decreases s.len() - i,
        {
            proof {
                lemma_scan_index_in_range(s, i as int, acc as int, roll as int);
            }
            let w: u32 = self.entries[i].1;
            if (roll as u64) < acc + (w as u64) {
                proof {
                    assert(scan_index(s, i as int, acc as int, roll as int) == i as int);
                    assert(weighted_index(s, roll as int) == i as int);
                }
                return Some(i);
            }
            proof {
                lemma_total_weight_take_succ(s, i as int);
                assert(scan_index(s, i as int, acc as int, roll as int)
                    == scan_index(s, i + 1, acc + s[i as int].1, roll as int));
            }
            acc = acc + (w as u64);
            i = i + 1;
            proof {
                lemma_scan_index_in_range(s, i as int, acc as int, roll as int);
            }
        }
        proof {
            assert(false);
        }
        None
    }
}

} // verus!
