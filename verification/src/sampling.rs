//! The sampling engine: each worker owns a private deck copy, repeatedly
//! shuffles it, classifies the first five cards, and accumulates counts
//! in a local tally; the orchestration layer splits the total trial count
//! into per-worker chunks with `chunk_counts`.

use vstd::prelude::*;

use rand::seq::SliceRandom;

use crate::card::Card;
use crate::card::Deck;
use crate::classify::classify;
use crate::classify::hand_wf;
use crate::tally::Tally;

verus! {

/// Relies on rand's `SliceRandom::shuffle` with the thread-local
/// generator: a Fisher-Yates shuffle rearranges the slice in place by
/// swaps, so the multiset of elements is unchanged. Which order comes
/// out depends on the generator's state, so nothing is stated about it.
#[verifier::external_body]
fn shuffle_cards(cards: &mut Vec<Card>)
    ensures
        final(cards)@.to_multiset() == old(cards)@.to_multiset(),
{
    cards.shuffle(&mut rand::thread_rng());
}

/// A permutation of a well-formed deck is well formed: same 52 cards,
/// so the same length and still no duplicate.
proof fn lemma_permutation_keeps_wf(a: Seq<Card>, b: Seq<Card>)
    requires
        a.to_multiset() == b.to_multiset(),
        a.len() == 52,
        a.no_duplicates(),
    ensures
        b.len() == 52,
        b.no_duplicates(),
{
    broadcast use vstd::seq_lib::group_to_multiset_ensures;

    assert(a.to_multiset().len() == 52);
    a.lemma_multiset_has_no_duplicates();
    b.lemma_multiset_has_no_duplicates_conv();
}

/// Runs `rounds` independent trials on a privately owned deck: each
/// trial shuffles the deck, takes its first five cards as the hand,
/// classifies the hand, and bumps the matching counter of a local tally.
/// The returned tally records exactly `rounds` trials in total, and the
/// deck is still a permutation of the 52 distinct cards.
pub fn run_trials(deck: &mut Deck, rounds: u64) -> (t: Tally)
    requires
        old(deck).wf(),
    ensures
        final(deck).wf(),
        final(deck).cards@.to_multiset() == old(deck).cards@.to_multiset(),
        t.wf(),
        t.total() == rounds as int,
{
    let mut tally = Tally::new();
    let mut r: u64 = 0;
    while r < rounds
        invariant
            deck.wf(),
            deck.cards@.to_multiset() == old(deck).cards@.to_multiset(),
            tally.wf(),
            tally.total() == r as int,
            r <= rounds,
        decreases rounds as int - r as int,
    {
        let ghost pre = deck.cards@;
        shuffle_cards(&mut deck.cards);
        proof {
            lemma_permutation_keeps_wf(pre, deck.cards@);
        }
        let mut hand: Vec<Card> = Vec::new();
        hand.push(deck.cards[0]);
        hand.push(deck.cards[1]);
        hand.push(deck.cards[2]);
        hand.push(deck.cards[3]);
        hand.push(deck.cards[4]);
        proof {
            assert forall|i: int, j: int|
                0 <= i < hand@.len() && 0 <= j < hand@.len() && i != j implies hand@[i]
                != hand@[j] by {
                assert(hand@[i] == deck.cards@[i]);
                assert(hand@[j] == deck.cards@[j]);
            }
            assert(hand_wf(hand@));
        }
        let cat = classify(&hand);
        tally.bump(cat);
        r = r + 1;
    }
    tally
}

/// Integer sum of a sequence of chunk sizes.
pub open spec fn sum_chunks(s: Seq<u64>) -> int
    decreases s.len(),
{
    if s.len() == 0 {
        0
    } else {
        sum_chunks(s.drop_last()) + s.last()
    }
}

proof fn lemma_sum_chunks_push(s: Seq<u64>, x: u64)
    ensures
        sum_chunks(s.push(x)) == sum_chunks(s) + x,
{
    assert(s.push(x).drop_last() =~= s);
}

/// Splits a total trial count into per-worker chunks: every chunk is
/// `chunk_size` except a possibly smaller final one, and the chunks sum
/// to exactly `total` — every requested trial is assigned to exactly one
/// worker.
pub fn chunk_counts(total: u64, chunk_size: u64) -> (chunks: Vec<u64>)
    requires
        chunk_size > 0,
    ensures
        sum_chunks(chunks@) == total as int,
        forall|i: int| 0 <= i < chunks@.len() ==> 0 < #[trigger] chunks@[i] <= chunk_size,
        forall|i: int| 0 <= i < chunks@.len() - 1 ==> #[trigger] chunks@[i] == chunk_size,
{
    let mut chunks: Vec<u64> = Vec::new();
    let mut remaining: u64 = total;
    while remaining > 0
        invariant
            chunk_size > 0,
            sum_chunks(chunks@) + remaining == total as int,
            forall|i: int| 0 <= i < chunks@.len() ==> 0 < #[trigger] chunks@[i] <= chunk_size,
            remaining > 0 ==> (forall|i: int|
                0 <= i < chunks@.len() ==> #[trigger] chunks@[i] == chunk_size),
            forall|i: int| 0 <= i < chunks@.len() - 1 ==> #[trigger] chunks@[i] == chunk_size,
        decreases remaining,
    {
        let step = if remaining >= chunk_size {
            chunk_size
        } else {
            remaining
        };
        let ghost prev = chunks@;
        chunks.push(step);
        proof {
            lemma_sum_chunks_push(prev, step);
        }
        remaining = remaining - step;
    }
    chunks
}

} // verus!
