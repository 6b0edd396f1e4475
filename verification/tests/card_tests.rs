use poker_sim::Card;
use poker_sim::Deck;
use poker_sim::Suit;
use poker_sim::Value;

#[test]
fn suit_from_index_accepts_0_to_3() {
    assert_eq!(Suit::to(0), Ok(Suit::Clubs));
    assert_eq!(Suit::to(1), Ok(Suit::Diamonds));
    assert_eq!(Suit::to(2), Ok(Suit::Spades));
    assert_eq!(Suit::to(3), Ok(Suit::Hearts));
}

#[test]
fn suit_from_index_rejects_4_and_up() {
    assert_eq!(Suit::to(4), Err("Invalid number"));
    assert_eq!(Suit::to(255), Err("Invalid number"));
}

#[test]
fn value_from_index_accepts_0_to_12() {
    assert_eq!(Value::to(0), Ok(Value::Ace));
    assert_eq!(Value::to(1), Ok(Value::Two));
    assert_eq!(Value::to(11), Ok(Value::Queen));
    assert_eq!(Value::to(12), Ok(Value::King));
    for i in 0..13u8 {
        assert_eq!(Value::to(i).unwrap().index(), i);
    }
}

#[test]
fn value_from_index_rejects_13_and_up() {
    assert_eq!(Value::to(13), Err("Invalid number"));
    assert_eq!(Value::to(200), Err("Invalid number"));
}

#[test]
fn card_new_keeps_rank_and_suit() {
    let c = Card::new(12, 3);
    assert_eq!(c.value, Value::King);
    assert_eq!(c.suit, Suit::Hearts);
    let c = Card::new(0, 0);
    assert_eq!(c.value, Value::Ace);
    assert_eq!(c.suit, Suit::Clubs);
}

#[test]
fn fresh_deck_is_canonical() {
    let deck = Deck::new();
    assert_eq!(deck.cards.len(), 52);
    for (i, c) in deck.cards.iter().enumerate() {
        assert_eq!(c.value.index() as usize, i % 13);
        assert_eq!(c.suit.index() as usize, i % 4);
    }
}

#[test]
fn fresh_deck_has_no_duplicate_card() {
    let deck = Deck::new();
    for i in 0..52 {
        for j in (i + 1)..52 {
            assert_ne!(deck.cards[i], deck.cards[j]);
        }
    }
}
