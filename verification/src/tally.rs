//! Per-category trial counters and their aggregation.
//!
//! A `Tally` is a fixed block of nine counters, one per hand category.
//! Each sampling worker owns a local tally and merges it into the shared
//! one exactly once; merging adds slot by slot, so no trial is lost or
//! double counted whatever the decomposition into workers.

use vstd::prelude::*;

use crate::classify::HandCategory;

verus! {

/// The slot a category occupies in a tally, straight flush first.
pub open spec fn cat_index(c: HandCategory) -> int {
    match c {
        HandCategory::StraightFlush => 0,
        HandCategory::FourOfAKind => 1,
        HandCategory::FullHouse => 2,
        HandCategory::Flush => 3,
        HandCategory::Straight => 4,
        HandCategory::ThreeOfAKind => 5,
        HandCategory::TwoPair => 6,
        HandCategory::Pair => 7,
        HandCategory::HighCardNone => 8,
    }
}

/// Executable counterpart of `cat_index`.
pub fn category_slot(c: HandCategory) -> (i: usize)
    ensures
        i as int == cat_index(c),
        i < 9,
{
    match c {
        HandCategory::StraightFlush => 0,
        HandCategory::FourOfAKind => 1,
        HandCategory::FullHouse => 2,
        HandCategory::Flush => 3,
        HandCategory::Straight => 4,
        HandCategory::ThreeOfAKind => 5,
        HandCategory::TwoPair => 6,
        HandCategory::Pair => 7,
        HandCategory::HighCardNone => 8,
    }
}

/// The counters of a tally as unbounded integers.
pub open spec fn as_ints(s: Seq<u128>) -> Seq<int> {
    s.map_values(|x: u128| x as int)
}

/// Sum of a block of nine counters.
pub open spec fn sum9(s: Seq<int>) -> int
    recommends
        s.len() == 9,
{
    s[0] + s[1] + s[2] + s[3] + s[4] + s[5] + s[6] + s[7] + s[8]
}

/// Two counter blocks added slot by slot.
pub open spec fn merged_counts(a: Seq<int>, b: Seq<int>) -> Seq<int> {
    Seq::new(9, |i: int| a[i] + b[i])
}

/// Zero in every slot.
pub open spec fn zero_counts() -> Seq<int> {
    Seq::new(9, |i: int| 0)
}

/// The result of merging each counter block of `ts`, in order, into a
/// shared block that starts at zero.
pub open spec fn merged_all(ts: Seq<Seq<int>>) -> Seq<int>
    decreases ts.len(),
{
    if ts.len() == 0 {
        zero_counts()
    } else {
        merged_counts(merged_all(ts.drop_last()), ts.last())
    }
}

/// Total trial count across a sequence of counter blocks.
pub open spec fn total_all(ts: Seq<Seq<int>>) -> int
    decreases ts.len(),
{
    if ts.len() == 0 {
        0
    } else {
        total_all(ts.drop_last()) + sum9(ts.last())
    }
}

/// A fixed block of nine non-negative counters, index-aligned with the
/// hand categories.
pub struct Tally {
    pub counts: Vec<u128>,
}

impl Tally {
    /// A tally always holds exactly nine counters.
    pub open spec fn wf(self) -> bool {
        self.counts@.len() == 9
    }

    /// Total number of trials this tally records.
    pub open spec fn total(self) -> int {
        sum9(as_ints(self.counts@))
    }

    /// A zeroed tally: nothing recorded yet.
    pub fn new() -> (t: Tally)
        ensures
            t.wf(),
            forall|i: int| 0 <= i < 9 ==> t.counts@[i] == 0,
            t.total() == 0,
    {
        let mut counts: Vec<u128> = Vec::new();
        counts.push(0);
        counts.push(0);
        counts.push(0);
        counts.push(0);
        counts.push(0);
        counts.push(0);
        counts.push(0);
        counts.push(0);
        counts.push(0);
        Tally { counts }
    }

    /// Records one more hand of the given category.
    pub fn bump(&mut self, c: HandCategory)
        requires
            old(self).wf(),
            old(self).total() < u128::MAX,
        ensures
            final(self).wf(),
            final(self).counts@[cat_index(c)] == old(self).counts@[cat_index(c)] + 1,
            forall|i: int|
                0 <= i < 9 && i != cat_index(c) ==> final(self).counts@[i] == old(
                    self,
                ).counts@[i],
            final(self).total() == old(self).total() + 1,
    {
        let slot = category_slot(c);
        let cur = self.counts[slot];
        self.counts[slot] = cur + 1;
    }

    /// Reads the counter in the given slot.
    pub fn get(&self, slot: usize) -> (n: u128)
        requires
            self.wf(),
            slot < 9,
        ensures
            n == self.counts@[slot as int],
    {
        self.counts[slot]
    }

    /// Adds a worker's local tally into this one, slot by slot. The new
    /// counters are exactly the slot-wise sums: nothing is lost, nothing
    /// is counted twice.
    pub fn merge(&mut self, local: &Tally)
        requires
            old(self).wf(),
            local.wf(),
            forall|i: int|
                0 <= i < 9 ==> old(self).counts@[i] + local.counts@[i] <= u128::MAX,
        ensures
            final(self).wf(),
            forall|i: int|
                0 <= i < 9 ==> final(self).counts@[i] == old(self).counts@[i]
                    + local.counts@[i],
            as_ints(final(self).counts@) == merged_counts(
                as_ints(old(self).counts@),
                as_ints(local.counts@),
            ),
            final(self).total() == old(self).total() + local.total(),
    {
        let mut i: usize = 0;
        while i < 9
            invariant
                old(self).wf(),
                local.wf(),
                self.wf(),
                i <= 9,
                forall|j: int|
                    0 <= j < 9 ==> old(self).counts@[j] + local.counts@[j] <= u128::MAX,
                forall|j: int|
                    0 <= j < i ==> self.counts@[j] == old(self).counts@[j] + local.counts@[j],
                forall|j: int| i <= j < 9 ==> self.counts@[j] == old(self).counts@[j],
            decreases 9 - i,
        {
            let a = self.counts[i];
            let b = local.counts[i];
            self.counts[i] = a + b;
            i = i + 1;
        }
        proof {
            assert(as_ints(self.counts@) =~= merged_counts(
                as_ints(old(self).counts@),
                as_ints(local.counts@),
            ));
        }
    }

    /// Merges only when no counter would overflow, and reports whether it
    /// merged. On refusal the tally is unchanged.
    pub fn try_merge(&mut self, local: &Tally) -> (ok: bool)
        requires
            old(self).wf(),
            local.wf(),
        ensures
            final(self).wf(),
            ok == (forall|i: int|
                0 <= i < 9 ==> old(self).counts@[i] + local.counts@[i] <= u128::MAX),
            ok ==> (forall|i: int|
                0 <= i < 9 ==> final(self).counts@[i] == old(self).counts@[i]
                    + local.counts@[i]) && final(self).total() == old(self).total()
                + local.total(),
            !ok ==> *final(self) == *old(self),
    {
        let mut i: usize = 0;
        let mut ok = true;
        while i < 9
            invariant
                old(self).wf(),
                local.wf(),
                *self == *old(self),
                i <= 9,
                ok == (forall|j: int|
                    0 <= j < i ==> old(self).counts@[j] + local.counts@[j] <= u128::MAX),
            decreases 9 - i,
        {
            let a = self.counts[i];
            let b = local.counts[i];
            if b > u128::MAX - a {
                ok = false;
            }
            i = i + 1;
        }
        if ok {
            self.merge(local);
        }
        ok
    }
}

/// Conservation: merging any number of worker tallies into a zeroed
/// shared tally yields counters whose sum is exactly the sum of the
/// workers' totals — no trial lost, none double counted, whatever the
/// decomposition into workers.
pub proof fn lemma_conservation(ts: Seq<Seq<int>>)
    requires
        forall|i: int| 0 <= i < ts.len() ==> (#[trigger] ts[i]).len() == 9,
    ensures
        merged_all(ts).len() == 9,
        sum9(merged_all(ts)) == total_all(ts),
    decreases ts.len(),
{
    if ts.len() > 0 {
        lemma_conservation(ts.drop_last());
    }
}

/// Merge order is irrelevant: merging `a` then `b` into a shared tally
/// leaves exactly the same counters as merging `b` then `a`.
pub proof fn lemma_merge_order_irrelevant(s: Seq<int>, a: Seq<int>, b: Seq<int>)
    ensures
        merged_counts(merged_counts(s, a), b) == merged_counts(merged_counts(s, b), a),
{
    assert(merged_counts(merged_counts(s, a), b) =~= merged_counts(merged_counts(s, b), a));
}

} // verus!
