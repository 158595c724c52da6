use blackjack::card::{Card, Rank, Suit};
use blackjack::deck::Deck;
use blackjack::game::{Action, Error, Game, Outcome, State};
use blackjack::pcg::PCG32;
use blackjack::player::Player;
use blackjack::rules::Ruleset;

/// A deck whose cards come off the top in exactly the given order.
fn stacked(deal_order: &[(Rank, Suit)]) -> Deck {
    let mut cards: Vec<Card> = deal_order
        .iter()
        .map(|(rank, suit)| Card { rank: *rank, suit: *suit })
        .collect();
    cards.reverse();
    Deck::from_cards(cards)
}

const H: Suit = Suit::Hearts;
const S: Suit = Suit::Spades;
const C: Suit = Suit::Clubs;
const D: Suit = Suit::Diamonds;

#[test]
fn blackjack_beats_a_standing_dealer() {
    // player Ace+King against dealer Ten+Six; the dealer must draw and
    // lands on eighteen; the natural pays floor(10 * 2.5) = 25
    let deck = stacked(&[
        (Rank::Ace, H),
        (Rank::Ten, H),
        (Rank::King, S),
        (Rank::Six, S),
        (Rank::Two, C),
    ]);
    let mut game = Game::with_deck(Ruleset::default(), Player::new(1000), deck);
    let view = game.bet(10).unwrap();
    assert_eq!(view.state, State::Dealer);
    assert!(view.player.hands[0].blackjack());
    assert_eq!(view.player.chips, 990);
    assert_eq!(view.bet, 10);

    let view = game.dealer().unwrap();
    assert_eq!(view.state, State::Dealer);
    assert_eq!(view.dealer.count(), 3);
    assert_eq!(view.dealer.score(), 18);

    let view = game.dealer().unwrap();
    assert_eq!(view.state, State::Final);
    assert_eq!(view.scores, vec![Outcome::Blackjack(25)]);

    let player = game.finish().unwrap();
    assert_eq!(player.chips, 1015);
}

#[test]
fn odd_bets_floor_their_payouts() {
    // floor(11 * 2.5) = 27 for the natural
    let deck = stacked(&[
        (Rank::Ace, H),
        (Rank::Ten, H),
        (Rank::King, S),
        (Rank::Nine, S),
    ]);
    let mut game = Game::with_deck(Ruleset::default(), Player::new(1000), deck);
    game.bet(11).unwrap();
    let view = game.dealer().unwrap();
    assert_eq!(view.scores, vec![Outcome::Blackjack(27)]);
    assert_eq!(game.finish().unwrap().chips, 1016);

    // floor(11 / 2) = 5 for the surrendered stake
    let deck = stacked(&[
        (Rank::Ten, H),
        (Rank::Nine, H),
        (Rank::Six, H),
        (Rank::Ten, S),
    ]);
    let rules = Ruleset::default().surrender(true);
    let mut game = Game::with_deck(rules, Player::new(1000), deck);
    game.bet(11).unwrap();
    let view = game.player(Action::Surrender).unwrap();
    assert_eq!(view.scores, vec![Outcome::Lose(5)]);
    assert_eq!(game.finish().unwrap().chips, 989);
}

#[test]
fn busting_loses_without_a_dealer_draw() {
    // player Ten+Ten hits into a five for twenty-five: an immediate loss,
    // and the dealer never draws a card
    let deck = stacked(&[
        (Rank::Ten, H),
        (Rank::Nine, H),
        (Rank::Ten, S),
        (Rank::Seven, H),
        (Rank::Five, C),
    ]);
    let mut game = Game::with_deck(Ruleset::default(), Player::new(1000), deck);
    let view = game.bet(10).unwrap();
    assert_eq!(view.state, State::Player(0));
    // only the up-card is visible during the player's turn
    assert_eq!(view.dealer.count(), 1);
    assert_eq!(view.dealer.cards[0], Card { rank: Rank::Seven, suit: H });

    let view = game.player(Action::Hit).unwrap();
    assert_eq!(view.state, State::Dealer);
    assert!(view.player.hands[0].bust());

    let view = game.dealer().unwrap();
    assert_eq!(view.state, State::Final);
    assert_eq!(view.dealer.count(), 2);
    assert_eq!(view.scores, vec![Outcome::Lose(10)]);

    let player = game.finish().unwrap();
    assert_eq!(player.chips, 990);
}

#[test]
fn split_then_double_both_lose_to_twenty() {
    // eights are split; the first hand doubles to nineteen, the second
    // stands at eighteen; the dealer draws to twenty and takes both
    let deck = stacked(&[
        (Rank::Eight, H),
        (Rank::Ten, H),
        (Rank::Eight, S),
        (Rank::Four, H),
        (Rank::Three, H),
        (Rank::Ten, S),
        (Rank::Eight, D),
        (Rank::Six, H),
    ]);
    let mut game = Game::with_deck(Ruleset::default(), Player::new(1000), deck);
    let view = game.bet(10).unwrap();
    assert_eq!(view.state, State::Player(0));

    let view = game.player(Action::Split).unwrap();
    assert_eq!(view.state, State::Player(0));
    assert_eq!(view.player.hands.len(), 2);
    assert_eq!(view.player.chips, 980);
    assert_eq!(view.player.hands[0].score(), 11);
    assert_eq!(view.player.hands[1].score(), 18);

    let view = game.player(Action::Double).unwrap();
    assert_eq!(view.state, State::Player(1));
    assert_eq!(view.player.chips, 970);
    assert_eq!(view.bet, 20);
    assert_eq!(view.player.hands[0].score(), 19);

    let view = game.player(Action::Stand).unwrap();
    assert_eq!(view.state, State::Dealer);

    let view = game.dealer().unwrap();
    assert_eq!(view.state, State::Dealer);
    assert_eq!(view.dealer.score(), 20);

    let view = game.dealer().unwrap();
    assert_eq!(view.state, State::Final);
    assert_eq!(view.scores, vec![Outcome::Lose(20), Outcome::Lose(20)]);

    let player = game.finish().unwrap();
    assert_eq!(player.chips, 970);
}

#[test]
fn surrender_gives_up_half_the_stake() {
    // sixteen against a ten up-card, surrender allowed: the round ends at
    // once with a halved loss and no dealer turn
    let deck = stacked(&[
        (Rank::Ten, H),
        (Rank::Nine, H),
        (Rank::Six, H),
        (Rank::Ten, S),
    ]);
    let rules = Ruleset::default().surrender(true);
    let mut game = Game::with_deck(rules, Player::new(1000), deck);
    let view = game.bet(10).unwrap();
    assert_eq!(view.state, State::Player(0));
    assert_eq!(view.valid_action(Action::Surrender), Ok(0));

    let view = game.player(Action::Surrender).unwrap();
    assert_eq!(view.state, State::Final);
    assert_eq!(view.dealer.count(), 2);
    assert_eq!(view.scores, vec![Outcome::Lose(5)]);

    let player = game.finish().unwrap();
    assert_eq!(player.chips, 990);
}

#[test]
fn surrender_refused_by_rules_or_after_a_hit() {
    let deck = stacked(&[
        (Rank::Five, H),
        (Rank::Nine, H),
        (Rank::Six, H),
        (Rank::Ten, S),
        (Rank::Two, C),
    ]);
    // surrender disallowed by the ruleset
    let mut game = Game::with_deck(Ruleset::default(), Player::new(1000), deck);
    game.bet(10).unwrap();
    assert_eq!(game.player(Action::Surrender).unwrap_err(), Error::InvalidAction);

    // allowed by the rules, but no longer pre-action after a hit
    let deck = stacked(&[
        (Rank::Five, H),
        (Rank::Nine, H),
        (Rank::Six, H),
        (Rank::Ten, S),
        (Rank::Two, C),
    ]);
    let rules = Ruleset::default().surrender(true);
    let mut game = Game::with_deck(rules, Player::new(1000), deck);
    game.bet(10).unwrap();
    game.player(Action::Hit).unwrap();
    assert_eq!(game.player(Action::Surrender).unwrap_err(), Error::InvalidAction);
}

#[test]
fn exhausted_shoe_refunds_the_bet() {
    // too short for the opening deal
    let deck = stacked(&[(Rank::Ten, H), (Rank::Nine, H), (Rank::Six, H)]);
    let mut game = Game::with_deck(Ruleset::default(), Player::new(1000), deck);
    assert_eq!(game.bet(10).unwrap_err(), Error::Fatal);
    let view = game.view();
    assert_eq!(view.state, State::Error);
    assert_eq!(view.player.chips, 1000);
    assert_eq!(view.bet, 0);

    // exhausted mid-round: the placed bet comes back in full
    let deck = stacked(&[
        (Rank::Ten, H),
        (Rank::Nine, H),
        (Rank::Seven, S),
        (Rank::Seven, H),
    ]);
    let mut game = Game::with_deck(Ruleset::default(), Player::new(1000), deck);
    let view = game.bet(10).unwrap();
    assert_eq!(view.player.chips, 990);
    assert_eq!(game.player(Action::Hit).unwrap_err(), Error::Fatal);
    let view = game.view();
    assert_eq!(view.state, State::Error);
    assert_eq!(view.player.chips, 1000);
    assert_eq!(view.bet, 0);
}

#[test]
fn aces_cannot_be_resplit() {
    let deck = stacked(&[
        (Rank::Ace, H),
        (Rank::Ten, H),
        (Rank::Ace, S),
        (Rank::Seven, H),
        (Rank::Ace, D),
        (Rank::Nine, S),
    ]);
    let mut game = Game::with_deck(Ruleset::default(), Player::new(1000), deck);
    let view = game.bet(10).unwrap();
    assert_eq!(view.state, State::Player(0));

    let view = game.player(Action::Split).unwrap();
    assert_eq!(view.player.hands.len(), 2);
    // the first hand is again a pair of aces, but resplitting is refused
    assert!(view.player.hands[0].is_splittable());
    assert_eq!(game.player(Action::Split).unwrap_err(), Error::InvalidAction);
}

#[test]
fn standing_wins_pushes_and_dealer_busts() {
    // twenty against a standing nineteen wins double the stake
    let deck = stacked(&[
        (Rank::Ten, H),
        (Rank::Nine, H),
        (Rank::King, S),
        (Rank::Ten, D),
    ]);
    let mut game = Game::with_deck(Ruleset::default(), Player::new(1000), deck);
    game.bet(10).unwrap();
    game.player(Action::Stand).unwrap();
    let view = game.dealer().unwrap();
    assert_eq!(view.scores, vec![Outcome::Win(20)]);
    assert_eq!(game.finish().unwrap().chips, 1010);

    // nineteen against nineteen pushes the stake back
    let deck = stacked(&[
        (Rank::Ten, H),
        (Rank::Nine, H),
        (Rank::Nine, S),
        (Rank::Ten, D),
    ]);
    let mut game = Game::with_deck(Ruleset::default(), Player::new(1000), deck);
    game.bet(10).unwrap();
    game.player(Action::Stand).unwrap();
    let view = game.dealer().unwrap();
    assert_eq!(view.scores, vec![Outcome::Push(10)]);
    assert_eq!(game.finish().unwrap().chips, 1000);

    // the dealer draws past twenty-one: the standing hand wins
    let deck = stacked(&[
        (Rank::Ten, S),
        (Rank::Ten, H),
        (Rank::Eight, H),
        (Rank::Six, H),
        (Rank::King, C),
    ]);
    let mut game = Game::with_deck(Ruleset::default(), Player::new(1000), deck);
    game.bet(10).unwrap();
    game.player(Action::Stand).unwrap();
    let view = game.dealer().unwrap();
    assert_eq!(view.state, State::Dealer);
    let view = game.dealer().unwrap();
    assert!(view.dealer.bust());
    assert_eq!(view.scores, vec![Outcome::Win(20)]);
    assert_eq!(game.finish().unwrap().chips, 1010);
}

#[test]
fn dealer_blackjack_pushes_a_player_blackjack() {
    let deck = stacked(&[
        (Rank::Ace, H),
        (Rank::Ace, S),
        (Rank::King, H),
        (Rank::King, S),
    ]);
    let mut game = Game::with_deck(Ruleset::default(), Player::new(1000), deck);
    let view = game.bet(10).unwrap();
    assert_eq!(view.state, State::Dealer);
    let view = game.dealer().unwrap();
    assert_eq!(view.scores, vec![Outcome::Push(10)]);
    assert_eq!(game.finish().unwrap().chips, 1000);
}

#[test]
fn soft_seventeen_rule_controls_the_dealer() {
    // dealer Ace+Six is a soft seventeen; with stand=false one more card
    // must come
    let deck = stacked(&[
        (Rank::Ten, H),
        (Rank::Ace, D),
        (Rank::Eight, H),
        (Rank::Six, D),
        (Rank::Two, C),
    ]);
    let rules = Ruleset::default().stand(false);
    let mut game = Game::with_deck(rules, Player::new(1000), deck);
    game.bet(10).unwrap();
    game.player(Action::Stand).unwrap();
    let view = game.dealer().unwrap();
    assert_eq!(view.state, State::Dealer);
    assert_eq!(view.dealer.count(), 3);
    assert_eq!(view.dealer.score(), 19);

    // with stand=true the dealer stays on the soft seventeen and loses
    // to the player's eighteen
    let deck = stacked(&[
        (Rank::Ten, H),
        (Rank::Ace, D),
        (Rank::Eight, H),
        (Rank::Six, D),
        (Rank::Two, C),
    ]);
    let mut game = Game::with_deck(Ruleset::default(), Player::new(1000), deck);
    game.bet(10).unwrap();
    game.player(Action::Stand).unwrap();
    let view = game.dealer().unwrap();
    assert_eq!(view.state, State::Final);
    assert_eq!(view.dealer.count(), 2);
    assert_eq!(view.scores, vec![Outcome::Win(20)]);
}

#[test]
fn invalid_moves_are_refused_and_change_nothing() {
    let deck = stacked(&[
        (Rank::Ten, H),
        (Rank::Nine, H),
        (Rank::Seven, S),
        (Rank::Seven, H),
        (Rank::Two, C),
    ]);
    let mut game = Game::with_deck(Ruleset::default(), Player::new(1000), deck);
    // nothing but a bet is accepted from Ready
    assert_eq!(game.player(Action::Hit).unwrap_err(), Error::InvalidAction);
    assert_eq!(game.dealer().unwrap_err(), Error::InvalidAction);
    assert_eq!(game.bet(0).unwrap_err(), Error::InvalidAction);
    assert_eq!(game.bet(2000).unwrap_err(), Error::Money(1000));
    let view = game.view();
    assert_eq!(view.state, State::Ready);
    assert_eq!(view.player.chips, 1000);
    assert_eq!(view.dealer.count(), 0);

    game.bet(10).unwrap();
    // no second bet mid-round
    assert_eq!(game.bet(10).unwrap_err(), Error::InvalidAction);
    // a seventeen is no pair: splitting is refused
    assert_eq!(game.player(Action::Split).unwrap_err(), Error::InvalidAction);
}

#[test]
fn finishing_early_is_refused() {
    let deck = stacked(&[
        (Rank::Ten, H),
        (Rank::Nine, H),
        (Rank::Seven, S),
        (Rank::Seven, H),
    ]);
    let mut game = Game::with_deck(Ruleset::default(), Player::new(1000), deck);
    game.bet(10).unwrap();
    assert_eq!(game.finish().unwrap_err(), Error::InvalidAction);
}

#[test]
fn doubling_needs_chips_and_the_rules_after_a_split() {
    // an emptied bankroll cannot double: the shortfall comes back
    let deck = stacked(&[
        (Rank::Eight, H),
        (Rank::Ten, H),
        (Rank::Three, S),
        (Rank::Seven, H),
        (Rank::Two, C),
    ]);
    let mut game = Game::with_deck(Ruleset::default(), Player::new(10), deck);
    game.bet(10).unwrap();
    assert_eq!(game.player(Action::Double).unwrap_err(), Error::Money(10));

    // splitting needs a second stake as well
    let deck = stacked(&[
        (Rank::Eight, H),
        (Rank::Ten, H),
        (Rank::Eight, S),
        (Rank::Seven, H),
    ]);
    let mut game = Game::with_deck(Ruleset::default(), Player::new(10), deck);
    game.bet(10).unwrap();
    assert_eq!(game.player(Action::Split).unwrap_err(), Error::Money(10));

    // with doubling after a split forbidden, the refusal names the rule
    let deck = stacked(&[
        (Rank::Eight, H),
        (Rank::Ten, H),
        (Rank::Eight, S),
        (Rank::Four, H),
        (Rank::Three, H),
        (Rank::Ten, S),
    ]);
    let rules = Ruleset::default().double_after_split(false);
    let mut game = Game::with_deck(rules, Player::new(1000), deck);
    game.bet(10).unwrap();
    game.player(Action::Split).unwrap();
    assert_eq!(game.player(Action::Double).unwrap_err(), Error::DoubleAfterSplit);
}

#[test]
fn commitment_flow_over_a_game() {
    // the house commits to the fresh order, the player reshuffles before
    // betting, and once the bet is placed the order is locked
    let mut game = Game::with_deck(Ruleset::default(), Player::new(1000), Deck::new(1));
    assert_eq!(
        game.sha256(),
        "9652f1389e87867ef24fe9a14779366417c3bda123b76ef9da3671c245963303"
    );

    let mut player_rng = PCG32::new(42, 54);
    game.player_shuffle(&mut player_rng);
    let committed = game.sha256();
    assert_eq!(
        committed,
        "b6dfd977cf33955c6841f018039823386768f6a0097731f0f2f207bdaa946ff3"
    );

    game.bet(10).unwrap();
    // reshuffling after the bet is a quiet no-op
    let mut late_rng = PCG32::new(9, 9);
    game.player_shuffle(&mut late_rng);
    let mut replay = Deck::new(1);
    let mut replay_rng = PCG32::from_seed(PCG32::new(42, 54).to_seed());
    replay.shuffle(&mut replay_rng);
    // the first four cards of the committed order have been dealt, and
    // the rest of the shoe still matches the independent replay
    for _ in 0..4 {
        replay.draw();
    }
    assert_eq!(game.sha256(), replay.sha256());
    let view = game.view();
    assert_eq!(view.player.hands[0].count(), 2);
    assert_eq!(view.state, State::Player(0));
}
