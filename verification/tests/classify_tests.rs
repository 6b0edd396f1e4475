use poker_sim::Card;
use poker_sim::Deck;
use poker_sim::HandCategory;
use poker_sim::Sort;
use poker_sim::category_slot;
use poker_sim::classify;

fn card(value: u8, suit: u8) -> Card {
    Card::new(value, suit)
}

// Suit indices: 0 clubs, 1 diamonds, 2 spades, 3 hearts.
// Value indices: 0 ace, 1 two, ..., 12 king.
fn hand(cards: [(u8, u8); 5]) -> Vec<Card> {
    cards.iter().map(|&(v, s)| card(v, s)).collect()
}

#[test]
fn fixture_straight_flush() {
    // 2c 3c 4c 5c 6c
    let h = hand([(1, 0), (2, 0), (3, 0), (4, 0), (5, 0)]);
    assert_eq!(classify(&h), HandCategory::StraightFlush);
}

#[test]
fn fixture_four_of_a_kind() {
    // 2c 2d 2s 2h 5c
    let h = hand([(1, 0), (1, 1), (1, 2), (1, 3), (4, 0)]);
    assert_eq!(classify(&h), HandCategory::FourOfAKind);
}

#[test]
fn fixture_full_house() {
    // 3c 3d 3s 7h 7c
    let h = hand([(2, 0), (2, 1), (2, 2), (6, 3), (6, 0)]);
    assert_eq!(classify(&h), HandCategory::FullHouse);
}

#[test]
fn fixture_flush() {
    // 2c 5c 7c 9c Kc, no straight
    let h = hand([(1, 0), (4, 0), (6, 0), (8, 0), (12, 0)]);
    assert_eq!(classify(&h), HandCategory::Flush);
}

#[test]
fn fixture_straight() {
    // 4c 5d 6s 7h 8c, mixed suits
    let h = hand([(3, 0), (4, 1), (5, 2), (6, 3), (7, 0)]);
    assert_eq!(classify(&h), HandCategory::Straight);
}

#[test]
fn fixture_ace_low_run() {
    // Ac 2d 3s 4h 5c: the ace is always rank 0, so this run is
    // numerically consecutive (0..=4) and counts as a straight.
    let h = hand([(0, 0), (1, 1), (2, 2), (3, 3), (4, 0)]);
    assert_eq!(classify(&h), HandCategory::Straight);
}

#[test]
fn fixture_ace_high_run_is_not_a_straight() {
    // 10c Jd Qs Kh Ac: there is no wrap-around past the king, so the
    // ace-high run is not consecutive and falls through to high card.
    let h = hand([(9, 0), (10, 1), (11, 2), (12, 3), (0, 0)]);
    assert_eq!(classify(&h), HandCategory::HighCardNone);
}

#[test]
fn fixture_pair() {
    // 9c 9d 2s 5h Kc
    let h = hand([(8, 0), (8, 1), (1, 2), (4, 3), (12, 0)]);
    assert_eq!(classify(&h), HandCategory::Pair);
}

#[test]
fn fixture_two_pair() {
    // 9c 9d 5s 5h Kc
    let h = hand([(8, 0), (8, 1), (4, 2), (4, 3), (12, 0)]);
    assert_eq!(classify(&h), HandCategory::TwoPair);
}

#[test]
fn fixture_three_of_a_kind() {
    // 9c 9d 9s 5h Kc
    let h = hand([(8, 0), (8, 1), (8, 2), (4, 3), (12, 0)]);
    assert_eq!(classify(&h), HandCategory::ThreeOfAKind);
}

#[test]
fn fixture_high_card() {
    // 2c 5d 7s 9h Kc
    let h = hand([(1, 0), (4, 1), (6, 2), (8, 3), (12, 0)]);
    assert_eq!(classify(&h), HandCategory::HighCardNone);
}

#[test]
fn classification_is_order_independent() {
    let orders: [[usize; 5]; 4] = [
        [0, 1, 2, 3, 4],
        [4, 3, 2, 1, 0],
        [2, 0, 4, 1, 3],
        [1, 4, 0, 3, 2],
    ];
    let hands: [[(u8, u8); 5]; 3] = [
        [(2, 0), (2, 1), (2, 2), (6, 3), (6, 0)],
        [(3, 0), (4, 1), (5, 2), (6, 3), (7, 0)],
        [(8, 0), (8, 1), (4, 2), (4, 3), (12, 0)],
    ];
    for cards in hands.iter() {
        let reference = classify(&hand(*cards));
        for order in orders.iter() {
            let permuted: Vec<Card> = order.iter().map(|&i| card(cards[i].0, cards[i].1)).collect();
            assert_eq!(classify(&permuted), reference);
        }
    }
}

#[test]
fn sort_orders_values_and_keeps_suits_in_place() {
    let mut h = hand([(12, 0), (3, 1), (7, 2), (0, 3), (7, 0)]);
    Sort(&mut h);
    let values: Vec<u8> = h.iter().map(|c| c.value.index()).collect();
    let suits: Vec<u8> = h.iter().map(|c| c.suit.index()).collect();
    assert_eq!(values, vec![0, 3, 7, 7, 12]);
    assert_eq!(suits, vec![0, 1, 2, 3, 0]);
}

#[test]
fn exhaustive_category_counts() {
    // Every one of the C(52,5) = 2,598,960 hands from the full deck is
    // classified into exactly one category, and the per-category counts
    // match the combinatorial values for this rule set (9 straight
    // windows, ace low, no wrap-around).
    let deck = Deck::new();
    let cards = &deck.cards;
    let mut counts = [0u64; 9];
    let mut h = hand([(0, 0), (1, 0), (2, 0), (3, 0), (4, 0)]);
    for a in 0..48 {
        for b in (a + 1)..49 {
            for c in (b + 1)..50 {
                for d in (c + 1)..51 {
                    for e in (d + 1)..52 {
                        h[0] = cards[a];
                        h[1] = cards[b];
                        h[2] = cards[c];
                        h[3] = cards[d];
                        h[4] = cards[e];
                        counts[category_slot(classify(&h))] += 1;
                    }
                }
            }
        }
    }
    assert_eq!(
        counts,
        [36, 624, 3744, 5112, 9180, 54912, 123552, 1098240, 1303560]
    );
    let total: u64 = counts.iter().sum();
    assert_eq!(total, 2598960);
}
