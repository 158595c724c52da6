use blackjack::card::{Card, Rank, Suit, Value};

#[test]
fn add_cards() {
    let a = Rank::Two;
    let b = Rank::Ace;
    assert_eq!(a.add(b), Value::Soft(13));
}

#[test]
fn rank_values() {
    assert_eq!(Rank::Two.value(), Value::Hard(2));
    assert_eq!(Rank::Nine.value(), Value::Hard(9));
    assert_eq!(Rank::Ten.value(), Value::Hard(10));
    assert_eq!(Rank::Jack.value(), Value::Hard(10));
    assert_eq!(Rank::Queen.value(), Value::Hard(10));
    assert_eq!(Rank::King.value(), Value::Hard(10));
    assert_eq!(Rank::Ace.value(), Value::Soft(11));
}

#[test]
fn face_ranks() {
    assert!(Rank::Jack.is_face());
    assert!(Rank::Queen.is_face());
    assert!(Rank::King.is_face());
    assert!(Rank::Ace.is_face());
    assert!(!Rank::Ten.is_face());
    assert!(!Rank::Two.is_face());
}

#[test]
fn value_bounds() {
    assert_eq!(Value::Soft(13).max(), 13);
    assert_eq!(Value::Soft(13).min(), 3);
    assert_eq!(Value::Hard(20).max(), 20);
    assert_eq!(Value::Hard(20).min(), 20);
    assert!(!Value::Soft(22).busted());
    assert!(Value::Hard(22).busted());
    assert!(!Value::Hard(21).busted());
    assert!(Value::Soft(32).busted());
}

#[test]
fn card_addition_goes_by_value() {
    let king = Card { rank: Rank::King, suit: Suit::Hearts };
    let ace = Card { rank: Rank::Ace, suit: Suit::Spades };
    assert_eq!(king.add(ace), Value::Soft(21));
    assert_eq!(king.value(), Value::Hard(10));
    assert!(ace.soft());
    assert!(!king.soft());
}

#[test]
fn card_notation_is_rank_then_suit() {
    let ace_hearts = Card { rank: Rank::Ace, suit: Suit::Hearts };
    let king_spades = Card { rank: Rank::King, suit: Suit::Spades };
    let ten_clubs = Card { rank: Rank::Ten, suit: Suit::Clubs };
    let two_diamonds = Card { rank: Rank::Two, suit: Suit::Diamonds };
    assert_eq!(ace_hearts.notation(), "Ah");
    assert_eq!(king_spades.notation(), "Ks");
    assert_eq!(ten_clubs.notation(), "Tc");
    assert_eq!(two_diamonds.notation(), "2d");
}
