use blackjack::card::{Card, Rank, Suit};
use blackjack::deck::Deck;
use blackjack::pcg::PCG32;

#[test]
fn fresh_deck_has_fixed_order() {
    let mut deck = Deck::new(1);
    assert_eq!(deck.count(), 52);
    let notation = deck.notation();
    assert!(notation.starts_with("2h 3h 4h 5h 6h 7h 8h 9h Th Jh Qh Kh Ah 2s"));
    assert!(notation.ends_with("Qd Kd Ad"));
    assert_eq!(notation.len(), 52 * 3 - 1);
    // the top of the shoe is the last card of the enumeration
    let top = deck.draw();
    assert_eq!(top, Some(Card { rank: Rank::Ace, suit: Suit::Diamonds }));
    assert_eq!(deck.count(), 51);
}

#[test]
fn multiple_sets_concatenate() {
    let deck = Deck::new(6);
    assert_eq!(deck.count(), 312);
}

#[test]
fn empty_deck_yields_nothing() {
    let mut deck = Deck::new(0);
    assert_eq!(deck.count(), 0);
    assert_eq!(deck.draw(), None);
}

#[test]
fn fresh_deck_commitment_is_stable() {
    let deck = Deck::new(1);
    assert_eq!(
        deck.sha256(),
        "9652f1389e87867ef24fe9a14779366417c3bda123b76ef9da3671c245963303"
    );
    assert_eq!(deck.sha256(), Deck::new(1).sha256());
}

#[test]
fn shuffle_with_fixed_seed_is_reproducible() {
    // the literal example: one set shuffled with seed (42, 54) always
    // hashes to the same digest, run after run
    let mut deck = Deck::new(1);
    let mut rng = PCG32::new(42, 54);
    deck.shuffle(&mut rng);
    let digest = deck.sha256();
    assert_eq!(
        digest,
        "b6dfd977cf33955c6841f018039823386768f6a0097731f0f2f207bdaa946ff3"
    );

    let mut again = Deck::new(1);
    let mut rng2 = PCG32::new(42, 54);
    again.shuffle(&mut rng2);
    assert_eq!(again.notation(), deck.notation());
    assert_eq!(again.sha256(), digest);
}

#[test]
fn shuffle_replay_from_serialized_seed() {
    // shuffling with a generator restored from the original's seed
    // reproduces the notation byte for byte
    let mut original_rng = PCG32::new(987654321, 12345);
    let seed = original_rng.to_seed();

    let mut deck1 = Deck::new(2);
    deck1.shuffle(&mut original_rng);

    let mut replay_rng = PCG32::from_seed(seed);
    let mut deck2 = Deck::new(2);
    deck2.shuffle(&mut replay_rng);

    assert_eq!(deck1.notation(), deck2.notation());
    assert_eq!(deck1.sha256(), deck2.sha256());
    // and the generators are left in the same state
    assert_eq!(original_rng.to_seed(), replay_rng.to_seed());
}

#[test]
fn shuffle_keeps_the_cards() {
    let mut deck = Deck::new(1);
    let mut rng = PCG32::new(1, 2);
    deck.shuffle(&mut rng);
    assert_eq!(deck.count(), 52);
    let mut seen = std::collections::BTreeSet::new();
    while let Some(card) = deck.draw() {
        seen.insert(card.notation());
    }
    assert_eq!(seen.len(), 52);
}

#[test]
fn two_phase_shuffle_depends_on_both_seeds() {
    // house then player: replaying both seeds reproduces the order;
    // changing either seed changes it
    let mut house = PCG32::new(1000, 1);
    let mut player = PCG32::new(2000, 2);
    let mut deck = Deck::new(1);
    deck.shuffle(&mut house);
    deck.shuffle(&mut player);
    let committed = deck.sha256();

    let mut verify_deck = Deck::new(1);
    let mut house2 = PCG32::from_seed(PCG32::new(1000, 1).to_seed());
    let mut player2 = PCG32::from_seed(PCG32::new(2000, 2).to_seed());
    verify_deck.shuffle(&mut house2);
    verify_deck.shuffle(&mut player2);
    assert_eq!(verify_deck.sha256(), committed);

    let mut other_deck = Deck::new(1);
    let mut house3 = PCG32::new(1000, 1);
    let mut player3 = PCG32::new(2001, 2);
    other_deck.shuffle(&mut house3);
    other_deck.shuffle(&mut player3);
    assert_ne!(other_deck.sha256(), committed);
}
