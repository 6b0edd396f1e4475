use poker_sim::Deck;
use poker_sim::HandCategory;
use poker_sim::Tally;
use poker_sim::category_slot;
use poker_sim::chunk_counts;
use poker_sim::run_trials;

const CATEGORIES: [HandCategory; 9] = [
    HandCategory::StraightFlush,
    HandCategory::FourOfAKind,
    HandCategory::FullHouse,
    HandCategory::Flush,
    HandCategory::Straight,
    HandCategory::ThreeOfAKind,
    HandCategory::TwoPair,
    HandCategory::Pair,
    HandCategory::HighCardNone,
];

fn tally_with(counts: [u64; 9]) -> Tally {
    let mut t = Tally::new();
    for (slot, &n) in counts.iter().enumerate() {
        for _ in 0..n {
            t.bump(CATEGORIES[slot]);
        }
    }
    t
}

fn snapshot(t: &Tally) -> [u128; 9] {
    let mut out = [0u128; 9];
    for (slot, entry) in out.iter_mut().enumerate() {
        *entry = t.get(slot);
    }
    out
}

#[test]
fn new_tally_is_zeroed() {
    let t = Tally::new();
    assert_eq!(snapshot(&t), [0; 9]);
}

#[test]
fn bump_increments_only_the_matching_slot() {
    let mut t = Tally::new();
    t.bump(HandCategory::Pair);
    t.bump(HandCategory::Pair);
    t.bump(HandCategory::Flush);
    assert_eq!(category_slot(HandCategory::Pair), 7);
    assert_eq!(category_slot(HandCategory::Flush), 3);
    assert_eq!(snapshot(&t), [0, 0, 0, 1, 0, 0, 0, 2, 0]);
}

#[test]
fn merge_adds_slot_by_slot_exactly() {
    // A deterministic stand-in for worker randomness: fixed local
    // tallies merged one by one into one shared tally. The final sum is
    // the exact slot-wise sum of all locals: no lost updates.
    let locals = [
        [1u64, 0, 2, 0, 0, 3, 0, 40, 54],
        [0u64, 5, 0, 0, 7, 0, 11, 0, 77],
        [2u64, 2, 2, 2, 2, 2, 2, 2, 84],
    ];
    let mut shared = Tally::new();
    let mut expected = [0u128; 9];
    for counts in locals.iter() {
        let local = tally_with(*counts);
        assert!(shared.try_merge(&local));
        for slot in 0..9 {
            expected[slot] += counts[slot] as u128;
        }
    }
    assert_eq!(snapshot(&shared), expected);
    let grand: u128 = snapshot(&shared).iter().sum();
    let requested: u128 = locals
        .iter()
        .map(|c| c.iter().map(|&n| n as u128).sum::<u128>())
        .sum();
    assert_eq!(grand, requested);
}

#[test]
fn merge_order_is_irrelevant() {
    let a = tally_with([1, 2, 3, 4, 5, 6, 7, 8, 9]);
    let b = tally_with([9, 0, 7, 0, 5, 0, 3, 0, 1]);
    let mut first_ab = Tally::new();
    assert!(first_ab.try_merge(&a));
    assert!(first_ab.try_merge(&b));
    let mut first_ba = Tally::new();
    assert!(first_ba.try_merge(&b));
    assert!(first_ba.try_merge(&a));
    assert_eq!(snapshot(&first_ab), snapshot(&first_ba));
}

#[test]
fn try_merge_refuses_overflow_and_leaves_tally_unchanged() {
    let mut shared = Tally::new();
    shared.counts[3] = u128::MAX;
    shared.counts[5] = 17;
    let local = tally_with([0, 0, 0, 1, 0, 0, 0, 0, 0]);
    assert!(!shared.try_merge(&local));
    assert_eq!(shared.get(3), u128::MAX);
    assert_eq!(shared.get(5), 17);
    let harmless = tally_with([0, 0, 0, 0, 0, 1, 0, 0, 0]);
    assert!(shared.try_merge(&harmless));
    assert_eq!(shared.get(5), 18);
}

#[test]
fn run_conserves_trial_count() {
    // Conservation: however the trials are decomposed, every trial lands
    // in exactly one counter, so the tallies sum to the trial count.
    let mut deck = Deck::new();
    let chunks = chunk_counts(20_000, 6_000);
    assert_eq!(chunks.iter().sum::<u64>(), 20_000);
    let mut shared = Tally::new();
    for rounds in chunks {
        let local = run_trials(&mut deck, rounds);
        let local_sum: u128 = snapshot(&local).iter().sum();
        assert_eq!(local_sum, rounds as u128);
        assert!(shared.try_merge(&local));
    }
    let grand: u128 = snapshot(&shared).iter().sum();
    assert_eq!(grand, 20_000);
}

#[test]
fn chunk_counts_splits_exactly() {
    assert_eq!(chunk_counts(100, 10), vec![10; 10]);
    let uneven = chunk_counts(101, 10);
    assert_eq!(uneven.len(), 11);
    assert_eq!(&uneven[..10], &[10u64; 10][..]);
    assert_eq!(uneven[10], 1);
    assert_eq!(chunk_counts(0, 5), Vec::<u64>::new());
    assert_eq!(chunk_counts(7, 10), vec![7]);
    assert_eq!(chunk_counts(30, 10), vec![10, 10, 10]);
}

#[test]
fn pair_frequency_is_statistically_sane() {
    // Large-sample smoke test, not an exact assertion: the observed pair
    // frequency must sit near the combinatorial probability (~42.3%).
    let trials: u64 = 120_000;
    let mut deck = Deck::new();
    let t = run_trials(&mut deck, trials);
    let pairs = t.get(7) as f64;
    let frequency = pairs / trials as f64;
    assert!(
        frequency > 0.40 && frequency < 0.45,
        "pair frequency {} outside the tolerance band",
        frequency
    );
}
