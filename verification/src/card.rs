//! The card and deck model: 4 suits, 13 ranks, and the canonical
//! 52-card deck holding every (rank, suit) combination exactly once.

use vstd::prelude::*;

verus! {

/// One of the four suits. Suits are nominal: no order among them matters.
#[derive(Clone, Copy, PartialEq, Eq, Structural, Debug)]
pub enum Suit {
    Clubs,
    Diamonds,
    Spades,
    Hearts,
}

/// One of the thirteen ranks, ace low through king high.
#[derive(Clone, Copy, PartialEq, Eq, Structural, Debug)]
pub enum Value {
    Ace,
    Two,
    Three,
    Four,
    Five,
    Six,
    Seven,
    Eight,
    Nine,
    Ten,
    Jack,
    Queen,
    King,
}

impl Suit {
    /// Numeric index of the suit, 0 through 3.
    pub open spec fn as_int(self) -> int {
        match self {
            Suit::Clubs => 0,
            Suit::Diamonds => 1,
            Suit::Spades => 2,
            Suit::Hearts => 3,
        }
    }

    /// The suit with the given index; rejects indices outside 0..=3.
    pub fn to(suit: u8) -> (r: Result<Self, &'static str>)
        ensures
            suit < 4 ==> (r matches Ok(s) && s.as_int() == suit as int),
            suit >= 4 ==> (r matches Err(m) && m@ == "Invalid number"@),
    {
        match suit {
            0 => Ok(Suit::Clubs),
            1 => Ok(Suit::Diamonds),
            2 => Ok(Suit::Spades),
            3 => Ok(Suit::Hearts),
            _ => Err("Invalid number"),
        }
    }

    /// Executable counterpart of `as_int`.
    pub fn index(&self) -> (i: u8)
        ensures
            i as int == self.as_int(),
            i < 4,
    {
        match self {
            Suit::Clubs => 0,
            Suit::Diamonds => 1,
            Suit::Spades => 2,
            Suit::Hearts => 3,
        }
    }
}

impl Value {
    /// Numeric rank of the value, 0 (ace) through 12 (king).
    pub open spec fn as_int(self) -> int {
        match self {
            Value::Ace => 0,
            Value::Two => 1,
            Value::Three => 2,
            Value::Four => 3,
            Value::Five => 4,
            Value::Six => 5,
            Value::Seven => 6,
            Value::Eight => 7,
            Value::Nine => 8,
            Value::Ten => 9,
            Value::Jack => 10,
            Value::Queen => 11,
            Value::King => 12,
        }
    }

    /// The rank with the given index; rejects indices outside 0..=12.
    pub fn to(value: u8) -> (r: Result<Self, &'static str>)
        ensures
            value < 13 ==> (r matches Ok(v) && v.as_int() == value as int),
            value >= 13 ==> (r matches Err(m) && m@ == "Invalid number"@),
    {
        match value {
            0 => Ok(Value::Ace),
            1 => Ok(Value::Two),
            2 => Ok(Value::Three),
            3 => Ok(Value::Four),
            4 => Ok(Value::Five),
            5 => Ok(Value::Six),
            6 => Ok(Value::Seven),
            7 => Ok(Value::Eight),
            8 => Ok(Value::Nine),
            9 => Ok(Value::Ten),
            10 => Ok(Value::Jack),
            11 => Ok(Value::Queen),
            12 => Ok(Value::King),
            _ => Err("Invalid number"),
        }
    }

    /// Executable counterpart of `as_int`.
    pub fn index(&self) -> (i: u8)
        ensures
            i as int == self.as_int(),
            i < 13,
    {
        match self {
            Value::Ace => 0,
            Value::Two => 1,
            Value::Three => 2,
            Value::Four => 3,
            Value::Five => 4,
            Value::Six => 5,
            Value::Seven => 6,
            Value::Eight => 7,
            Value::Nine => 8,
            Value::Ten => 9,
            Value::Jack => 10,
            Value::Queen => 11,
            Value::King => 12,
        }
    }
}

/// A playing card: a suit and a rank, nothing more. Two cards with
/// equal fields are the same card.
#[derive(Clone, Copy, PartialEq, Eq, Structural, Debug)]
pub struct Card {
    pub suit: Suit,
    pub value: Value,
}

impl Card {
    /// Builds the card with the given rank and suit indices.
    pub fn new(value: u8, suit: u8) -> (c: Self)
        requires
            value < 13,
            suit < 4,
        ensures
            c.value.as_int() == value as int,
            c.suit.as_int() == suit as int,
    {
        let suit = Suit::to(suit).unwrap();
        let value = Value::to(value).unwrap();
        Card { suit, value }
    }
}

/// The rank indices of a sequence of cards, position by position.
pub open spec fn values_of(s: Seq<Card>) -> Seq<int> {
    s.map_values(|c: Card| c.value.as_int())
}

/// The suit indices of a sequence of cards, position by position.
pub open spec fn suits_of(s: Seq<Card>) -> Seq<int> {
    s.map_values(|c: Card| c.suit.as_int())
}

/// An ordered sequence of the 52 distinct cards, in some permutation.
#[derive(Clone)]
pub struct Deck {
    pub cards: Vec<Card>,
}

impl Deck {
    /// A deck is well formed when it holds exactly the 52 distinct cards:
    /// 52 entries with no card repeated.
    pub open spec fn wf(self) -> bool {
        &&& self.cards@.len() == 52
        &&& self.cards@.no_duplicates()
    }

    /// The canonical fresh deck: card `i` carries rank `i % 13` and suit
    /// `i % 4`. Since 13 and 4 are coprime, the 52 combinations are distinct.
    pub fn new() -> (d: Self)
        ensures
            d.wf(),
            forall|i: int|
                0 <= i < 52 ==> (#[trigger] d.cards@[i]).value.as_int() == i % 13
                    && d.cards@[i].suit.as_int() == i % 4,
    {
        let mut cards: Vec<Card> = Vec::new();
        let mut i: u8 = 0;
        while i < 52
            invariant
                i <= 52,
                cards@.len() == i as int,
                forall|j: int|
                    0 <= j < i as int ==> (#[trigger] cards@[j]).value.as_int() == j % 13
                        && cards@[j].suit.as_int() == j % 4,
            decreases 52 - i as int,
        {
            cards.push(Card::new(i % 13, i % 4));
            i = i + 1;
        }
        proof {
            lemma_deck_distinct(cards@);
        }
        Deck { cards }
    }
}

/// Two distinct positions below 52 cannot agree on both `% 13` and `% 4`,
/// so the canonical deck holds no duplicate card.
proof fn lemma_mod_13_4_unique(i: int, j: int)
    requires
        0 <= i < 52,
        0 <= j < 52,
        i % 13 == j % 13,
        i % 4 == j % 4,
    ensures
        i == j,
{
    let a = i as u8;
    let b = j as u8;
    assert(a < 52 && b < 52 && a % 13 == b % 13 && a % 4 == b % 4 ==> a == b) by (bit_vector);
}

proof fn lemma_deck_distinct(cards: Seq<Card>)
    requires
        cards.len() == 52,
        forall|i: int|
            0 <= i < 52 ==> (#[trigger] cards[i]).value.as_int() == i % 13
                && cards[i].suit.as_int() == i % 4,
    ensures
        cards.no_duplicates(),
{
    assert forall|i: int, j: int|
        0 <= i < cards.len() && 0 <= j < cards.len() && i != j implies cards[i] != cards[j] by {
        if cards[i] == cards[j] {
            assert(i % 13 == j % 13);
            assert(i % 4 == j % 4);
            lemma_mod_13_4_unique(i, j);
        }
    }
}

} // verus!
