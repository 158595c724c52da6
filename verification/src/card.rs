//! Card identity and point values.
//!
//! A card is a rank and a suit; its point value is the rank's value, with
//! face cards worth ten and the ace worth eleven until a hand has to count
//! it as one.
use vstd::prelude::*;

use vstd::string::StringExecFns;

verus! {

#[derive(Copy, Clone, PartialEq, Eq, Structural, Debug)]
pub struct Card {
    pub rank: Rank,
    pub suit: Suit,
}

#[derive(Copy, Clone, PartialEq, Eq, Structural, Debug)]
pub enum Suit {
    Hearts,
    Spades,
    Clubs,
    Diamonds,
}

#[derive(Copy, Clone, PartialEq, Eq, Structural, Debug)]
pub enum Rank {
    Two,
    Three,
    Four,
    Five,
    Six,
    Seven,
    Eight,
    Nine,
    Ten,
    Jack,
    Queen,
    King,
    Ace,
}

/// A point count that remembers whether an ace is still counted as eleven.
#[derive(Copy, Clone, PartialEq, Eq, Structural, Debug)]
pub enum Value {
    Hard(u8),
    Soft(u8),
}

/// The points a rank is worth while every ace still counts as eleven.
pub open spec fn spec_rank_points(r: Rank) -> int {
    match r {
        Rank::Two => 2,
        Rank::Three => 3,
        Rank::Four => 4,
        Rank::Five => 5,
        Rank::Six => 6,
        Rank::Seven => 7,
        Rank::Eight => 8,
        Rank::Nine => 9,
        Rank::Ten => 10,
        Rank::Jack => 10,
        Rank::Queen => 10,
        Rank::King => 10,
        Rank::Ace => 11,
    }
}

/// The points a card is worth while every ace still counts as eleven.
pub open spec fn spec_card_points(c: Card) -> int {
    spec_rank_points(c.rank)
}

pub open spec fn spec_is_ace(c: Card) -> bool {
    c.rank == Rank::Ace
}

/// The one-character symbol of a rank: digits, `T` for ten, and the face
/// initials.
pub open spec fn spec_rank_char(r: Rank) -> char {
    match r {
        Rank::Two => '2',
        Rank::Three => '3',
        Rank::Four => '4',
        Rank::Five => '5',
        Rank::Six => '6',
        Rank::Seven => '7',
        Rank::Eight => '8',
        Rank::Nine => '9',
        Rank::Ten => 'T',
        Rank::Jack => 'J',
        Rank::Queen => 'Q',
        Rank::King => 'K',
        Rank::Ace => 'A',
    }
}

/// The one-character lowercase suit letter.
pub open spec fn spec_suit_char(s: Suit) -> char {
    match s {
        Suit::Hearts => 'h',
        Suit::Spades => 's',
        Suit::Clubs => 'c',
        Suit::Diamonds => 'd',
    }
}

/// The two-character notation of a card: rank symbol then suit letter.
pub open spec fn spec_card_notation(c: Card) -> Seq<char> {
    seq![spec_rank_char(c.rank), spec_suit_char(c.suit)]
}

impl Value {
    pub open spec fn spec_points(self) -> int {
        match self {
            Value::Hard(v) => v as int,
            Value::Soft(v) => v as int,
        }
    }

    pub open spec fn spec_is_soft(self) -> bool {
        self is Soft
    }

    /// The hand total would already be over twenty-one even with every ace
    /// counted as one.
    pub fn busted(self) -> (r: bool)
        ensures
            r == (self.spec_min_points() > 21),
    {
        match self {
            Value::Hard(val) => val > 21,
            Value::Soft(val) => val > 31,
        }
    }

    /// The total with every ace counted as eleven.
    pub fn max(self) -> (r: u8)
        ensures
            r == self.spec_points(),
    {
        match self {
            Value::Hard(val) => val,
            Value::Soft(val) => val,
        }
    }

    /// The total counted with one soft ace dropped to one.  A soft value
    /// below eleven would fall below zero, so `min` excludes it.
    pub open spec fn spec_min_points(self) -> int {
        match self {
            Value::Hard(v) => v as int,
            Value::Soft(v) => v - 10,
        }
    }

    /// The total with a soft ace counted as one.
    pub fn min(self) -> (r: u8)
        requires
            self matches Value::Soft(v) ==> v >= 10,
        ensures
            r == self.spec_min_points(),
    {
        match self {
            Value::Hard(val) => val,
            Value::Soft(val) => val - 10,
        }
    }

    /// Adds two point counts; the sum is soft when either side carries a
    /// soft ace.
    pub fn add(self, rhs: Value) -> (r: Value)
        requires
            self.spec_points() + rhs.spec_points() <= u8::MAX,
        ensures
            r.spec_points() == self.spec_points() + rhs.spec_points(),
            r.spec_is_soft() == (self.spec_is_soft() || rhs.spec_is_soft()),
    {
        match (self, rhs) {
            (Value::Hard(a), Value::Hard(b)) => Value::Hard(a + b),
            (Value::Hard(a), Value::Soft(b)) => Value::Soft(a + b),
            (Value::Soft(a), Value::Hard(b)) => Value::Soft(a + b),
            (Value::Soft(a), Value::Soft(b)) => Value::Soft(a + b),
        }
    }
}

impl Rank {
    pub fn is_face(self) -> (r: bool)
        ensures
            r == (self == Rank::Jack || self == Rank::Queen || self == Rank::King || self
                == Rank::Ace),
    {
        match self {
            Rank::Jack | Rank::Queen | Rank::King | Rank::Ace => true,
            _ => false,
        }
    }

    pub fn value(self) -> (r: Value)
        ensures
            r.spec_points() == spec_rank_points(self),
            r.spec_is_soft() == (self == Rank::Ace),
    {
        match self {
            Rank::Two => Value::Hard(2),
            Rank::Three => Value::Hard(3),
            Rank::Four => Value::Hard(4),
            Rank::Five => Value::Hard(5),
            Rank::Six => Value::Hard(6),
            Rank::Seven => Value::Hard(7),
            Rank::Eight => Value::Hard(8),
            Rank::Nine => Value::Hard(9),
            Rank::Ten => Value::Hard(10),
            Rank::Jack => Value::Hard(10),
            Rank::Queen => Value::Hard(10),
            Rank::King => Value::Hard(10),
            Rank::Ace => Value::Soft(11),
        }
    }

    pub fn add(self, rhs: Rank) -> (r: Value)
        ensures
            r.spec_points() == spec_rank_points(self) + spec_rank_points(rhs),
            r.spec_is_soft() == (self == Rank::Ace || rhs == Rank::Ace),
    {
        self.value().add(rhs.value())
    }
}

impl Card {
    pub fn value(self) -> (r: Value)
        ensures
            r.spec_points() == spec_card_points(self),
            r.spec_is_soft() == spec_is_ace(self),
    {
        self.rank.value()
    }

    /// Whether the card is an ace, the one card whose value starts soft.
    pub fn soft(self) -> (r: bool)
        ensures
            r == spec_is_ace(self),
    {
        match self.rank {
            Rank::Ace => true,
            _ => false,
        }
    }

    pub fn add(self, rhs: Card) -> (r: Value)
        ensures
            r.spec_points() == spec_card_points(self) + spec_card_points(rhs),
            r.spec_is_soft() == (spec_is_ace(self) || spec_is_ace(rhs)),
    {
        self.rank.add(rhs.rank)
    }

    /// The rank symbol as a byte of the card's ASCII notation.
    pub fn rank_byte(self) -> (r: u8)
        ensures
            r == spec_rank_char(self.rank) as u8,
    {
        match self.rank {
            Rank::Two => '2' as u8,
            Rank::Three => '3' as u8,
            Rank::Four => '4' as u8,
            Rank::Five => '5' as u8,
            Rank::Six => '6' as u8,
            Rank::Seven => '7' as u8,
            Rank::Eight => '8' as u8,
            Rank::Nine => '9' as u8,
            Rank::Ten => 'T' as u8,
            Rank::Jack => 'J' as u8,
            Rank::Queen => 'Q' as u8,
            Rank::King => 'K' as u8,
            Rank::Ace => 'A' as u8,
        }
    }

    /// The suit letter as a byte of the card's ASCII notation.
    pub fn suit_byte(self) -> (r: u8)
        ensures
            r == spec_suit_char(self.suit) as u8,
    {
        match self.suit {
            Suit::Hearts => 'h' as u8,
            Suit::Spades => 's' as u8,
            Suit::Clubs => 'c' as u8,
            Suit::Diamonds => 'd' as u8,
        }
    }

    fn rank_str(self) -> (r: &'static str)
        ensures
            r@ == seq![spec_rank_char(self.rank)],
    {
        match self.rank {
            Rank::Two => {
                proof {
                    reveal_strlit("2");
                    assert("2"@ =~= seq!['2']);
                }
                "2"
            },
            Rank::Three => {
                proof {
                    reveal_strlit("3");
                    assert("3"@ =~= seq!['3']);
                }
                "3"
            },
            Rank::Four => {
                proof {
                    reveal_strlit("4");
                    assert("4"@ =~= seq!['4']);
                }
                "4"
            },
            Rank::Five => {
                proof {
                    reveal_strlit("5");
                    assert("5"@ =~= seq!['5']);
                }
                "5"
            },
            Rank::Six => {
                proof {
                    reveal_strlit("6");
                    assert("6"@ =~= seq!['6']);
                }
                "6"
            },
            Rank::Seven => {
                proof {
                    reveal_strlit("7");
                    assert("7"@ =~= seq!['7']);
                }
                "7"
            },
            Rank::Eight => {
                proof {
                    reveal_strlit("8");
                    assert("8"@ =~= seq!['8']);
                }
                "8"
            },
            Rank::Nine => {
                proof {
                    reveal_strlit("9");
                    assert("9"@ =~= seq!['9']);
                }
                "9"
            },
            Rank::Ten => {
                proof {
                    reveal_strlit("T");
                    assert("T"@ =~= seq!['T']);
                }
                "T"
            },
            Rank::Jack => {
                proof {
                    reveal_strlit("J");
                    assert("J"@ =~= seq!['J']);
                }
                "J"
            },
            Rank::Queen => {
                proof {
                    reveal_strlit("Q");
                    assert("Q"@ =~= seq!['Q']);
                }
                "Q"
            },
            Rank::King => {
                proof {
                    reveal_strlit("K");
                    assert("K"@ =~= seq!['K']);
                }
                "K"
            },
            Rank::Ace => {
                proof {
                    reveal_strlit("A");
                    assert("A"@ =~= seq!['A']);
                }
                "A"
            },
        }
    }

    fn suit_str(self) -> (r: &'static str)
        ensures
            r@ == seq![spec_suit_char(self.suit)],
    {
        match self.suit {
            Suit::Hearts => {
                proof {
                    reveal_strlit("h");
                    assert("h"@ =~= seq!['h']);
                }
                "h"
            },
            Suit::Spades => {
                proof {
                    reveal_strlit("s");
                    assert("s"@ =~= seq!['s']);
                }
                "s"
            },
            Suit::Clubs => {
                proof {
                    reveal_strlit("c");
                    assert("c"@ =~= seq!['c']);
                }
                "c"
            },
            Suit::Diamonds => {
                proof {
                    reveal_strlit("d");
                    assert("d"@ =~= seq!['d']);
                }
                "d"
            },
        }
    }

    /// The two-character notation of the card, rank symbol then suit
    /// letter.
    pub fn notation(self) -> (r: String)
        ensures
            r@ == spec_card_notation(self),
    {
        let mut s = String::new();
        s.append(self.rank_str());
        s.append(self.suit_str());
        proof {
            assert(s@ =~= spec_card_notation(self));
        }
        s
    }
}

} // verus!
