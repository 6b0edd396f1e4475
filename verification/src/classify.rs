//! Hand classification: the nine mutually exclusive categories and the
//! deterministic rules that assign exactly one of them to any 5-card hand.
//!
//! The specification is stated over rank and suit *counts* (how many cards
//! of the hand carry a given rank or suit), so it depends only on which
//! cards the hand holds, never on their order. Ranks are compared by raw
//! numeric value, ace always 0: the ace-low run A-2-3-4-5 counts as a
//! straight (ranks 0..=4 are consecutive), while 10-J-Q-K-A does not,
//! because there is no wrap-around past the king.

use vstd::prelude::*;

use crate::card::Card;
use crate::card::values_of;
use crate::card::suits_of;

verus! {

/// The nine hand categories, mutually exclusive and jointly exhaustive.
#[derive(Clone, Copy, PartialEq, Eq, Structural, Debug)]
pub enum HandCategory {
    StraightFlush,
    FourOfAKind,
    FullHouse,
    Flush,
    Straight,
    ThreeOfAKind,
    TwoPair,
    Pair,
    HighCardNone,
}

/// How many entries of `s` equal `x`.
pub open spec fn count_of(s: Seq<int>, x: int) -> nat {
    s.to_multiset().count(x)
}

/// 1 when `a == x`, else 0: one entry's contribution to a count.
spec fn ind(a: int, x: int) -> int {
    if a == x {
        1
    } else {
        0
    }
}

/// Some rank appears on at least four of the five cards.
pub open spec fn has_quad(vs: Seq<int>) -> bool {
    exists|x: int| count_of(vs, x) >= 4
}

/// Some rank appears at least three times and a different rank at least twice.
pub open spec fn has_full_house(vs: Seq<int>) -> bool {
    exists|x: int, y: int| x != y && count_of(vs, x) >= 3 && count_of(vs, y) >= 2
}

/// Some rank appears on at least three of the five cards.
pub open spec fn has_triple(vs: Seq<int>) -> bool {
    exists|x: int| count_of(vs, x) >= 3
}

/// Two different ranks each appear at least twice.
pub open spec fn has_two_pair(vs: Seq<int>) -> bool {
    exists|x: int, y: int| x != y && count_of(vs, x) >= 2 && count_of(vs, y) >= 2
}

/// Some rank appears on at least two of the five cards.
pub open spec fn has_pair(vs: Seq<int>) -> bool {
    exists|x: int| count_of(vs, x) >= 2
}

/// The five ranks are five consecutive integers, each appearing once.
/// No wrap-around: the ace is always rank 0.
pub open spec fn is_straight(vs: Seq<int>) -> bool {
    exists|lo: int|
        #[trigger] count_of(vs, lo) == 1 && count_of(vs, lo + 1) == 1 && count_of(vs, lo + 2) == 1
            && count_of(vs, lo + 3) == 1 && count_of(vs, lo + 4) == 1
}

/// All five cards carry the same suit.
pub open spec fn is_flush(ss: Seq<int>) -> bool {
    exists|x: int| count_of(ss, x) >= 5
}

/// The category of a hand with rank sequence `vs` and suit sequence `ss`.
/// Pair-family categories are decided first; flush and straight are only
/// considered when no rank repeats, so the branches are mutually exclusive
/// and the highest applicable category wins.
pub open spec fn spec_category(vs: Seq<int>, ss: Seq<int>) -> HandCategory {
    if has_quad(vs) {
        HandCategory::FourOfAKind
    } else if has_full_house(vs) {
        HandCategory::FullHouse
    } else if has_triple(vs) {
        HandCategory::ThreeOfAKind
    } else if has_two_pair(vs) {
        HandCategory::TwoPair
    } else if has_pair(vs) {
        HandCategory::Pair
    } else if is_straight(vs) && is_flush(ss) {
        HandCategory::StraightFlush
    } else if is_flush(ss) {
        HandCategory::Flush
    } else if is_straight(vs) {
        HandCategory::Straight
    } else {
        HandCategory::HighCardNone
    }
}

/// A well-formed hand: exactly five cards, no card repeated.
pub open spec fn hand_wf(h: Seq<Card>) -> bool {
    h.len() == 5 && h.no_duplicates()
}

/// The hand's rank values are ascending, position by position.
pub open spec fn values_sorted(h: Seq<Card>) -> bool {
    forall|i: int, j: int|
        0 <= i <= j < h.len() ==> (#[trigger] h[i]).value.as_int() <= (#[trigger] h[j]).value.as_int()
}

/// The count of `x` in a 5-entry sequence is the sum of the five
/// per-position contributions.
proof fn lemma_counts5(s: Seq<int>)
    requires
        s.len() == 5,
    ensures
        forall|x: int|
            #[trigger] count_of(s, x) == ind(s[0], x) + ind(s[1], x) + ind(s[2], x) + ind(s[3], x)
                + ind(s[4], x),
{
    broadcast use vstd::seq_lib::group_to_multiset_ensures;
    broadcast use vstd::multiset::group_multiset_axioms;
    broadcast use vstd::multiset::group_multiset_properties;

    let e = Seq::<int>::empty();
    let s1 = e.push(s[0]);
    let s2 = s1.push(s[1]);
    let s3 = s2.push(s[2]);
    let s4 = s3.push(s[3]);
    let s5 = s4.push(s[4]);
    assert(s =~= s5);
    assert(e.to_multiset().len() == 0);
    vstd::multiset::lemma_multiset_empty_len(e.to_multiset());
    assert forall|x: int|
        #[trigger] count_of(s, x) == ind(s[0], x) + ind(s[1], x) + ind(s[2], x) + ind(s[3], x) + ind(
        s[4],
        x,
    ) by {
        assert(e.to_multiset().count(x) == 0);
        assert(s1.to_multiset().count(x) == ind(s[0], x));
        assert(s2.to_multiset().count(x) == ind(s[0], x) + ind(s[1], x));
        assert(s3.to_multiset().count(x) == ind(s[0], x) + ind(s[1], x) + ind(s[2], x));
        assert(s4.to_multiset().count(x) == ind(s[0], x) + ind(s[1], x) + ind(s[2], x) + ind(
            s[3],
            x,
        ));
        assert(s5.to_multiset().count(x) == ind(s[0], x) + ind(s[1], x) + ind(s[2], x) + ind(
            s[3],
            x,
        ) + ind(s[4], x));
    }
}

/// Sorts the five cards' rank values in place, ascending. Only the rank
/// values move between positions; each position keeps its suit, as only
/// the multiset of ranks and the multiset of suits matter to
/// classification.
#[allow(non_snake_case)]
pub fn Sort(hand: &mut Vec<Card>)
    requires
        old(hand)@.len() == 5,
    ensures
        final(hand)@.len() == 5,
        values_sorted(final(hand)@),
        forall|x: int|
            count_of(values_of(final(hand)@), x) == count_of(values_of(old(hand)@), x),
        forall|i: int| 0 <= i < 5 ==> (#[trigger] final(hand)@[i]).suit == old(hand)@[i].suit,
{
    let mut pass: usize = 0;
    while pass < 4
        invariant
            pass <= 4,
            hand@.len() == 5,
            forall|x: int|
                count_of(values_of(hand@), x) == count_of(values_of(old(hand)@), x),
            forall|i: int| 0 <= i < 5 ==> (#[trigger] hand@[i]).suit == old(hand)@[i].suit,
            forall|k1: int, k2: int|
                5 - pass <= k1 <= k2 < 5 ==> (#[trigger] hand@[k1]).value.as_int() <= (
                #[trigger] hand@[k2]).value.as_int(),
            forall|k1: int, k2: int|
                0 <= k1 < 5 - pass <= k2 < 5 ==> (#[trigger] hand@[k1]).value.as_int() <= (
                #[trigger] hand@[k2]).value.as_int(),
        decreases 4 - pass,
    {
        let mut i: usize = 1;
        while i < 5 - pass
            invariant
                pass < 4,
                1 <= i <= 5 - pass,
                hand@.len() == 5,
                forall|x: int|
                    count_of(values_of(hand@), x) == count_of(values_of(old(hand)@), x),
                forall|j: int| 0 <= j < 5 ==> (#[trigger] hand@[j]).suit == old(hand)@[j].suit,
                forall|k1: int, k2: int|
                    5 - pass <= k1 <= k2 < 5 ==> (#[trigger] hand@[k1]).value.as_int() <= (
                    #[trigger] hand@[k2]).value.as_int(),
                forall|k1: int, k2: int|
                    0 <= k1 < 5 - pass <= k2 < 5 ==> (#[trigger] hand@[k1]).value.as_int() <= (
                    #[trigger] hand@[k2]).value.as_int(),
                forall|k: int|
                    0 <= k < i ==> (#[trigger] hand@[k]).value.as_int() <= hand@[i - 1].value.as_int(),
            decreases 5 - pass - i,
        {
            let a = hand[i - 1];
            let b = hand[i];
            if b.value.index() < a.value.index() {
                let ghost prev = hand@;
                hand[i - 1] = Card { suit: a.suit, value: b.value };
                hand[i] = Card { suit: b.suit, value: a.value };
                proof {
                    assert forall|x: int|
                        count_of(values_of(hand@), x) == count_of(values_of(prev), x) by {
                        lemma_counts5(values_of(hand@));
                        lemma_counts5(values_of(prev));
                    }
                }
            }
            i = i + 1;
        }
        pass = pass + 1;
    }
}

/// On a rank-sorted hand, at-least-four-of-a-kind shows as a run of four
/// equal ranks starting at position 0 or 1.
proof fn lemma_quad_pattern(h: Seq<Card>)
    requires
        h.len() == 5,
        values_sorted(h),
    ensures
        has_quad(values_of(h)) <==> (h[0].value.as_int() == h[3].value.as_int()
            || h[1].value.as_int() == h[4].value.as_int()),
{
    let vs = values_of(h);
    lemma_counts5(vs);
    if has_quad(vs) {
        let x = choose|x: int| count_of(vs, x) >= 4;
        assert(count_of(vs, x) >= 4);
        assert(vs[0] == h[0].value.as_int() && vs[1] == h[1].value.as_int() && vs[2] == h[2].value.as_int()
            && vs[3] == h[3].value.as_int() && vs[4] == h[4].value.as_int());
    }
    if h[0].value.as_int() == h[3].value.as_int() {
        assert(count_of(vs, vs[0]) >= 4);
    }
    if h[1].value.as_int() == h[4].value.as_int() {
        assert(count_of(vs, vs[1]) >= 4);
    }
}

/// On a rank-sorted hand with no rank repeated five times, a full house
/// shows as one of the two 2+3 / 3+2 splits of the sorted positions.
proof fn lemma_full_house_pattern(h: Seq<Card>)
    requires
        h.len() == 5,
        values_sorted(h),
        forall|x: int| count_of(values_of(h), x) <= 4,
    ensures
        has_full_house(values_of(h)) <==> ((h[0].value.as_int() == h[1].value.as_int()
            && h[2].value.as_int() == h[4].value.as_int()) || (h[0].value.as_int()
            == h[2].value.as_int() && h[3].value.as_int() == h[4].value.as_int())),
{
    let vs = values_of(h);
    lemma_counts5(vs);
    if has_full_house(vs) {
        let (x, y) = choose|x: int, y: int|
            x != y && count_of(vs, x) >= 3 && count_of(vs, y) >= 2;
        assert(count_of(vs, x) >= 3 && count_of(vs, y) >= 2 && x != y);
        assert(vs[0] == h[0].value.as_int() && vs[1] == h[1].value.as_int() && vs[2] == h[2].value.as_int()
            && vs[3] == h[3].value.as_int() && vs[4] == h[4].value.as_int());
    }
    if h[0].value.as_int() == h[1].value.as_int() && h[2].value.as_int() == h[4].value.as_int() {
        assert(count_of(vs, vs[2]) >= 3);
        assert(count_of(vs, vs[0]) >= 2);
        assert(vs[0] != vs[2]);
        assert(has_full_house(vs));
    }
    if h[0].value.as_int() == h[2].value.as_int() && h[3].value.as_int() == h[4].value.as_int() {
        assert(count_of(vs, vs[0]) >= 3);
        assert(count_of(vs, vs[3]) >= 2);
        assert(vs[0] != vs[3]);
        assert(has_full_house(vs));
    }
}

/// On a rank-sorted hand, at-least-three-of-a-kind shows as a run of three
/// equal ranks starting at position 0, 1 or 2.
proof fn lemma_triple_pattern(h: Seq<Card>)
    requires
        h.len() == 5,
        values_sorted(h),
    ensures
        has_triple(values_of(h)) <==> (h[0].value.as_int() == h[2].value.as_int()
            || h[1].value.as_int() == h[3].value.as_int() || h[2].value.as_int()
            == h[4].value.as_int()),
{
    let vs = values_of(h);
    lemma_counts5(vs);
    if has_triple(vs) {
        let x = choose|x: int| count_of(vs, x) >= 3;
        assert(count_of(vs, x) >= 3);
        assert(vs[0] == h[0].value.as_int() && vs[1] == h[1].value.as_int() && vs[2] == h[2].value.as_int()
            && vs[3] == h[3].value.as_int() && vs[4] == h[4].value.as_int());
    }
    if h[0].value.as_int() == h[2].value.as_int() {
        assert(count_of(vs, vs[0]) >= 3);
    }
    if h[1].value.as_int() == h[3].value.as_int() {
        assert(count_of(vs, vs[1]) >= 3);
    }
    if h[2].value.as_int() == h[4].value.as_int() {
        assert(count_of(vs, vs[2]) >= 3);
    }
}

/// On a rank-sorted hand with no three-of-a-kind, two pair shows as one of
/// the three placements of two disjoint adjacent equal pairs.
proof fn lemma_two_pair_pattern(h: Seq<Card>)
    requires
        h.len() == 5,
        values_sorted(h),
        !has_triple(values_of(h)),
    ensures
        has_two_pair(values_of(h)) <==> ((h[0].value.as_int() == h[1].value.as_int()
            && h[2].value.as_int() == h[3].value.as_int()) || (h[0].value.as_int()
            == h[1].value.as_int() && h[3].value.as_int() == h[4].value.as_int()) || (
        h[1].value.as_int() == h[2].value.as_int() && h[3].value.as_int()
            == h[4].value.as_int())),
{
    let vs = values_of(h);
    lemma_counts5(vs);
    assert(vs[0] == h[0].value.as_int() && vs[1] == h[1].value.as_int() && vs[2] == h[2].value.as_int()
        && vs[3] == h[3].value.as_int() && vs[4] == h[4].value.as_int());
    if has_two_pair(vs) {
        let (x, y) = choose|x: int, y: int|
            x != y && count_of(vs, x) >= 2 && count_of(vs, y) >= 2;
        assert(count_of(vs, x) >= 2 && count_of(vs, y) >= 2 && x != y);
        assert(count_of(vs, x) < 3 && count_of(vs, y) < 3);
    }
    if h[0].value.as_int() == h[1].value.as_int() && h[2].value.as_int() == h[3].value.as_int() {
        assert(count_of(vs, vs[0]) >= 2);
        assert(count_of(vs, vs[2]) >= 2);
        assert(count_of(vs, vs[0]) < 3);
        assert(vs[0] != vs[2]);
        assert(has_two_pair(vs));
    }
    if h[0].value.as_int() == h[1].value.as_int() && h[3].value.as_int() == h[4].value.as_int() {
        assert(count_of(vs, vs[0]) >= 2);
        assert(count_of(vs, vs[3]) >= 2);
        assert(count_of(vs, vs[0]) < 3);
        assert(vs[0] != vs[3]);
        assert(has_two_pair(vs));
    }
    if h[1].value.as_int() == h[2].value.as_int() && h[3].value.as_int() == h[4].value.as_int() {
        assert(count_of(vs, vs[1]) >= 2);
        assert(count_of(vs, vs[3]) >= 2);
        assert(count_of(vs, vs[1]) < 3);
        assert(vs[1] != vs[3]);
        assert(has_two_pair(vs));
    }
}

/// On a rank-sorted hand, a repeated rank shows as two equal ranks in
/// adjacent positions.
proof fn lemma_pair_pattern(h: Seq<Card>)
    requires
        h.len() == 5,
        values_sorted(h),
    ensures
        has_pair(values_of(h)) <==> (h[0].value.as_int() == h[1].value.as_int()
            || h[1].value.as_int() == h[2].value.as_int() || h[2].value.as_int()
            == h[3].value.as_int() || h[3].value.as_int() == h[4].value.as_int()),
{
    let vs = values_of(h);
    lemma_counts5(vs);
    assert(vs[0] == h[0].value.as_int() && vs[1] == h[1].value.as_int() && vs[2] == h[2].value.as_int()
        && vs[3] == h[3].value.as_int() && vs[4] == h[4].value.as_int());
    if has_pair(vs) {
        let x = choose|x: int| count_of(vs, x) >= 2;
        assert(count_of(vs, x) >= 2);
    }
    if h[0].value.as_int() == h[1].value.as_int() {
        assert(count_of(vs, vs[0]) >= 2);
    }
    if h[1].value.as_int() == h[2].value.as_int() {
        assert(count_of(vs, vs[1]) >= 2);
    }
    if h[2].value.as_int() == h[3].value.as_int() {
        assert(count_of(vs, vs[2]) >= 2);
    }
    if h[3].value.as_int() == h[4].value.as_int() {
        assert(count_of(vs, vs[3]) >= 2);
    }
}

/// On a rank-sorted hand, a straight shows as each rank being exactly one
/// more than its predecessor.
proof fn lemma_straight_pattern(h: Seq<Card>)
    requires
        h.len() == 5,
        values_sorted(h),
    ensures
        is_straight(values_of(h)) <==> (h[1].value.as_int() == h[0].value.as_int() + 1
            && h[2].value.as_int() == h[1].value.as_int() + 1 && h[3].value.as_int()
            == h[2].value.as_int() + 1 && h[4].value.as_int() == h[3].value.as_int() + 1),
{
    let vs = values_of(h);
    lemma_counts5(vs);
    assert(vs[0] == h[0].value.as_int() && vs[1] == h[1].value.as_int() && vs[2] == h[2].value.as_int()
        && vs[3] == h[3].value.as_int() && vs[4] == h[4].value.as_int());
    if is_straight(vs) {
        let lo = choose|lo: int|
            #[trigger] count_of(vs, lo) == 1 && count_of(vs, lo + 1) == 1 && count_of(vs, lo + 2)
                == 1 && count_of(vs, lo + 3) == 1 && count_of(vs, lo + 4) == 1;
        assert(count_of(vs, lo) == 1 && count_of(vs, lo + 1) == 1 && count_of(vs, lo + 2) == 1
            && count_of(vs, lo + 3) == 1 && count_of(vs, lo + 4) == 1);
        // Five distinct target ranks each occur once among five positions,
        // so every position holds a target; sorted order fixes which.
        assert(vs[0] == lo && vs[1] == lo + 1 && vs[2] == lo + 2 && vs[3] == lo + 3 && vs[4] == lo
            + 4);
    }
    if h[1].value.as_int() == h[0].value.as_int() + 1 && h[2].value.as_int() == h[1].value.as_int()
        + 1 && h[3].value.as_int() == h[2].value.as_int() + 1 && h[4].value.as_int()
        == h[3].value.as_int() + 1 {
        let lo = vs[0];
        assert(count_of(vs, lo) == 1 && count_of(vs, lo + 1) == 1 && count_of(vs, lo + 2) == 1
            && count_of(vs, lo + 3) == 1 && count_of(vs, lo + 4) == 1);
        assert(is_straight(vs));
    }
}

/// All suits equal shows, position by position, as each suit matching the
/// first.
proof fn lemma_flush_pattern(h: Seq<Card>)
    requires
        h.len() == 5,
    ensures
        is_flush(suits_of(h)) <==> (h[0].suit.as_int() == h[1].suit.as_int() && h[0].suit.as_int()
            == h[2].suit.as_int() && h[0].suit.as_int() == h[3].suit.as_int()
            && h[0].suit.as_int() == h[4].suit.as_int()),
{
    let ss = suits_of(h);
    lemma_counts5(ss);
    assert(ss[0] == h[0].suit.as_int() && ss[1] == h[1].suit.as_int() && ss[2] == h[2].suit.as_int()
        && ss[3] == h[3].suit.as_int() && ss[4] == h[4].suit.as_int());
    if is_flush(ss) {
        let x = choose|x: int| count_of(ss, x) >= 5;
        assert(count_of(ss, x) >= 5);
    }
    if h[0].suit.as_int() == h[1].suit.as_int() && h[0].suit.as_int() == h[2].suit.as_int()
        && h[0].suit.as_int() == h[3].suit.as_int() && h[0].suit.as_int() == h[4].suit.as_int() {
        assert(count_of(ss, ss[0]) >= 5);
    }
}

/// Five distinct cards carry at most four of any one rank: a fifth copy of
/// a rank would force two of them to share the suit as well, and so be the
/// same card.
proof fn lemma_counts_capped(h: Seq<Card>)
    requires
        hand_wf(h),
    ensures
        forall|x: int| count_of(values_of(h), x) <= 4,
{
    let vs = values_of(h);
    lemma_counts5(vs);
    assert forall|x: int| count_of(vs, x) <= 4 by {
        if count_of(vs, x) > 4 {
            assert(vs[0] == x && vs[1] == x && vs[2] == x && vs[3] == x && vs[4] == x);
            assert(vs[0] == h[0].value.as_int() && vs[1] == h[1].value.as_int() && vs[2]
                == h[2].value.as_int() && vs[3] == h[3].value.as_int() && vs[4]
                == h[4].value.as_int());
            assert(h[0].value == h[1].value && h[0].value == h[2].value && h[0].value == h[3].value
                && h[0].value == h[4].value);
            assert(h[0] != h[1] && h[0] != h[2] && h[0] != h[3] && h[0] != h[4] && h[1] != h[2]
                && h[1] != h[3] && h[1] != h[4] && h[2] != h[3] && h[2] != h[4] && h[3] != h[4]);
            assert(false);
        }
    }
}

/// Every category predicate is a function of the rank and suit counts
/// alone: sequences with equal counts satisfy the same predicates.
proof fn lemma_predicates_from_counts(a: Seq<int>, b: Seq<int>, sa: Seq<int>, sb: Seq<int>)
    requires
        forall|x: int| count_of(a, x) == count_of(b, x),
        forall|x: int| count_of(sa, x) == count_of(sb, x),
    ensures
        has_quad(a) == has_quad(b),
        has_full_house(a) == has_full_house(b),
        has_triple(a) == has_triple(b),
        has_two_pair(a) == has_two_pair(b),
        has_pair(a) == has_pair(b),
        is_straight(a) == is_straight(b),
        is_flush(sa) == is_flush(sb),
        spec_category(a, sa) == spec_category(b, sb),
{
    assert(has_quad(a) == has_quad(b)) by {
        if has_quad(a) {
            let x = choose|x: int| count_of(a, x) >= 4;
            assert(count_of(b, x) >= 4);
        }
        if has_quad(b) {
            let x = choose|x: int| count_of(b, x) >= 4;
            assert(count_of(a, x) >= 4);
        }
    }
    assert(has_full_house(a) == has_full_house(b)) by {
        if has_full_house(a) {
            let (x, y) = choose|x: int, y: int|
                x != y && count_of(a, x) >= 3 && count_of(a, y) >= 2;
            assert(count_of(b, x) >= 3 && count_of(b, y) >= 2);
        }
        if has_full_house(b) {
            let (x, y) = choose|x: int, y: int|
                x != y && count_of(b, x) >= 3 && count_of(b, y) >= 2;
            assert(count_of(a, x) >= 3 && count_of(a, y) >= 2);
        }
    }
    assert(has_triple(a) == has_triple(b)) by {
        if has_triple(a) {
            let x = choose|x: int| count_of(a, x) >= 3;
            assert(count_of(b, x) >= 3);
        }
        if has_triple(b) {
            let x = choose|x: int| count_of(b, x) >= 3;
            assert(count_of(a, x) >= 3);
        }
    }
    assert(has_two_pair(a) == has_two_pair(b)) by {
        if has_two_pair(a) {
            let (x, y) = choose|x: int, y: int|
                x != y && count_of(a, x) >= 2 && count_of(a, y) >= 2;
            assert(count_of(b, x) >= 2 && count_of(b, y) >= 2);
        }
        if has_two_pair(b) {
            let (x, y) = choose|x: int, y: int|
                x != y && count_of(b, x) >= 2 && count_of(b, y) >= 2;
            assert(count_of(a, x) >= 2 && count_of(a, y) >= 2);
        }
    }
    assert(has_pair(a) == has_pair(b)) by {
        if has_pair(a) {
            let x = choose|x: int| count_of(a, x) >= 2;
            assert(count_of(b, x) >= 2);
        }
        if has_pair(b) {
            let x = choose|x: int| count_of(b, x) >= 2;
            assert(count_of(a, x) >= 2);
        }
    }
    assert(is_straight(a) == is_straight(b)) by {
        if is_straight(a) {
            let lo = choose|lo: int|
                #[trigger] count_of(a, lo) == 1 && count_of(a, lo + 1) == 1 && count_of(a, lo + 2)
                    == 1 && count_of(a, lo + 3) == 1 && count_of(a, lo + 4) == 1;
            assert(count_of(b, lo) == 1 && count_of(b, lo + 1) == 1 && count_of(b, lo + 2) == 1
                && count_of(b, lo + 3) == 1 && count_of(b, lo + 4) == 1);
        }
        if is_straight(b) {
            let lo = choose|lo: int|
                #[trigger] count_of(b, lo) == 1 && count_of(b, lo + 1) == 1 && count_of(b, lo + 2)
                    == 1 && count_of(b, lo + 3) == 1 && count_of(b, lo + 4) == 1;
            assert(count_of(a, lo) == 1 && count_of(a, lo + 1) == 1 && count_of(a, lo + 2) == 1
                && count_of(a, lo + 3) == 1 && count_of(a, lo + 4) == 1);
        }
    }
    assert(is_flush(sa) == is_flush(sb)) by {
        if is_flush(sa) {
            let x = choose|x: int| count_of(sa, x) >= 5;
            assert(count_of(sb, x) >= 5);
        }
        if is_flush(sb) {
            let x = choose|x: int| count_of(sb, x) >= 5;
            assert(count_of(sa, x) >= 5);
        }
    }
}

/// Reordering a hand reorders its rank and suit sequences the same way:
/// hands with equal card multisets have equal rank multisets and equal
/// suit multisets.
proof fn lemma_projected_multisets(a: Seq<Card>, b: Seq<Card>)
    requires
        a.to_multiset() == b.to_multiset(),
    ensures
        values_of(a).to_multiset() == values_of(b).to_multiset(),
        suits_of(a).to_multiset() == suits_of(b).to_multiset(),
    decreases a.len(),
{
    broadcast use vstd::seq_lib::group_to_multiset_ensures;
    broadcast use vstd::multiset::group_multiset_axioms;
    broadcast use vstd::multiset::group_multiset_properties;

    if a.len() == 0 {
        assert(a.to_multiset().len() == 0);
        assert(b.to_multiset().len() == 0);
        assert(values_of(a) =~= values_of(b));
        assert(suits_of(a) =~= suits_of(b));
    } else {
        let x = a[0];
        assert(a.contains(x));
        assert(b.to_multiset().count(x) > 0);
        assert(b.contains(x));
        let j = choose|j: int| 0 <= j < b.len() && b[j] == x;
        let a1 = a.remove(0);
        let b1 = b.remove(j);
        assert(a1.to_multiset() == b1.to_multiset());
        lemma_projected_multisets(a1, b1);
        let va = values_of(a);
        let vb = values_of(b);
        let v = x.value.as_int();
        assert(values_of(a1) =~= va.remove(0));
        assert(values_of(b1) =~= vb.remove(j));
        assert(va.remove(0).to_multiset() == va.to_multiset().remove(v));
        assert(vb.remove(j).to_multiset() == vb.to_multiset().remove(v));
        assert(va[0] == v);
        assert(va.contains(v));
        assert(vb[j] == v);
        assert(vb.contains(v));
        assert(va.to_multiset() =~= vb.to_multiset()) by {
            assert forall|y: int| va.to_multiset().count(y) == vb.to_multiset().count(y) by {
                if y == v {
                    assert(va.to_multiset().remove(v).count(v) == va.to_multiset().count(v) - 1);
                    assert(vb.to_multiset().remove(v).count(v) == vb.to_multiset().count(v) - 1);
                } else {
                    assert(va.to_multiset().remove(v).count(y) == va.to_multiset().count(y));
                    assert(vb.to_multiset().remove(v).count(y) == vb.to_multiset().count(y));
                }
            }
        }
        let sa = suits_of(a);
        let sb = suits_of(b);
        let s = x.suit.as_int();
        assert(suits_of(a1) =~= sa.remove(0));
        assert(suits_of(b1) =~= sb.remove(j));
        assert(sa.remove(0).to_multiset() == sa.to_multiset().remove(s));
        assert(sb.remove(j).to_multiset() == sb.to_multiset().remove(s));
        assert(sa[0] == s);
        assert(sa.contains(s));
        assert(sb[j] == s);
        assert(sb.contains(s));
        assert(sa.to_multiset() =~= sb.to_multiset()) by {
            assert forall|y: int| sa.to_multiset().count(y) == sb.to_multiset().count(y) by {
                if y == s {
                    assert(sa.to_multiset().remove(s).count(s) == sa.to_multiset().count(s) - 1);
                    assert(sb.to_multiset().remove(s).count(s) == sb.to_multiset().count(s) - 1);
                } else {
                    assert(sa.to_multiset().remove(s).count(y) == sa.to_multiset().count(y));
                    assert(sb.to_multiset().remove(s).count(y) == sb.to_multiset().count(y));
                }
            }
        }
    }
}

/// Classification is order independent: two hands made of the same five
/// cards — the same multiset of cards, in any order — are assigned the
/// same category.
pub proof fn lemma_classification_order_independent(a: Seq<Card>, b: Seq<Card>)
    requires
        a.to_multiset() == b.to_multiset(),
    ensures
        spec_category(values_of(a), suits_of(a)) == spec_category(values_of(b), suits_of(b)),
{
    lemma_projected_multisets(a, b);
    lemma_predicates_from_counts(values_of(a), values_of(b), suits_of(a), suits_of(b));
}

/// Classifies a well-formed 5-card hand into exactly one of the nine
/// categories. The input order of the cards is irrelevant: the hand is
/// rank-sorted internally, and the result is exactly the category that
/// `spec_category` assigns to the hand's ranks and suits.
pub fn classify(hand: &Vec<Card>) -> (c: HandCategory)
    requires
        hand_wf(hand@),
    ensures
        c == spec_category(values_of(hand@), suits_of(hand@)),
{
    let mut sorted: Vec<Card> = Vec::new();
    sorted.push(hand[0]);
    sorted.push(hand[1]);
    sorted.push(hand[2]);
    sorted.push(hand[3]);
    sorted.push(hand[4]);
    proof {
        assert(sorted@ =~= hand@);
    }
    Sort(&mut sorted);
    proof {
        lemma_counts_capped(hand@);
        assert(suits_of(sorted@) =~= suits_of(hand@));
        lemma_predicates_from_counts(
            values_of(sorted@),
            values_of(hand@),
            suits_of(sorted@),
            suits_of(hand@),
        );
        lemma_quad_pattern(sorted@);
        lemma_full_house_pattern(sorted@);
        lemma_triple_pattern(sorted@);
        if !has_triple(values_of(sorted@)) {
            lemma_two_pair_pattern(sorted@);
        }
        lemma_pair_pattern(sorted@);
        lemma_straight_pattern(sorted@);
        lemma_flush_pattern(sorted@);
    }
    let v0 = sorted[0].value.index();
    let v1 = sorted[1].value.index();
    let v2 = sorted[2].value.index();
    let v3 = sorted[3].value.index();
    let v4 = sorted[4].value.index();
    if v0 == v3 || v1 == v4 {
        HandCategory::FourOfAKind
    } else if (v0 == v1 && v2 == v4) || (v0 == v2 && v3 == v4) {
        HandCategory::FullHouse
    } else if v0 == v2 || v1 == v3 || v2 == v4 {
        HandCategory::ThreeOfAKind
    } else if (v0 == v1 && v2 == v3) || (v0 == v1 && v3 == v4) || (v1 == v2 && v3 == v4) {
        HandCategory::TwoPair
    } else if v0 == v1 || v1 == v2 || v2 == v3 || v3 == v4 {
        HandCategory::Pair
    } else {
        let s0 = sorted[0].suit.index();
        let s1 = sorted[1].suit.index();
        let s2 = sorted[2].suit.index();
        let s3 = sorted[3].suit.index();
        let s4 = sorted[4].suit.index();
        let flush = s0 == s1 && s0 == s2 && s0 == s3 && s0 == s4;
        let straight = v1 == v0 + 1 && v2 == v1 + 1 && v3 == v2 + 1 && v4 == v3 + 1;
        if straight && flush {
            HandCategory::StraightFlush
        } else if flush {
            HandCategory::Flush
        } else if straight {
            HandCategory::Straight
        } else {
            HandCategory::HighCardNone
        }
    }
}

} // verus!
