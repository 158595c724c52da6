//! The round state machine.
//!
//! A game owns the ruleset, the shoe, the dealer's hand, the player and
//! the round's stakes.  It moves from `Ready` through per-hand `Player`
//! turns and the dealer's turn to `Final`, where the recorded outcomes are
//! paid out at `finish`.  Every mutating call hands back a `View`, a
//! snapshot with the dealer's hole card hidden until the dealer's turn.
use vstd::prelude::*;

use crate::card::{Card, Rank, Suit};
use crate::deck::{spec_fresh_deck, spec_notation_bytes, spec_shuffle, Deck};
use crate::digest::{sha256_of, spec_hex};
use crate::pcg::PCG32;
use crate::player::{
    spec_blackjack, spec_bust, spec_can_split, spec_hands, spec_score, spec_soft, Hand, Player,
};
use crate::rules::Ruleset;
use vstd::view::View as _;

verus! {

/// The most chips a player may bring to a game.  The cap leaves room for
/// every payout a round can owe — at most four hands, each at up to two
/// and a half times the round's bet — without the bankroll arithmetic
/// ever overflowing.
pub const CHIP_CAP: usize = usize::MAX / 16;

#[derive(Copy, Clone, PartialEq, Eq, Structural, Debug)]
pub enum Action {
    Hit,
    Stand,
    Split,
    Double,
    Surrender,
}

/// The most recently dealt card and who received it.
#[derive(Copy, Clone, PartialEq, Eq, Structural, Debug)]
pub enum Last {
    Dealer(Card),
    Player(Card),
}

/// A settled hand, from the player's side, carrying its payout: losses
/// pay nothing, a push returns the stake, a win returns twice the stake,
/// and a blackjack returns the stake plus three-to-two winnings.
#[derive(Copy, Clone, PartialEq, Eq, Structural, Debug)]
pub enum Outcome {
    Lose(usize),
    Win(usize),
    Blackjack(usize),
    Push(usize),
}

#[derive(Copy, Clone, PartialEq, Eq, Structural, Debug)]
pub enum State {
    Ready,
    Player(usize),
    Dealer,
    Error,
    Final,
}

#[derive(Copy, Clone, PartialEq, Eq, Structural, Debug)]
pub enum Error {
    InvalidAction,
    Fatal,
    DoubleAfterSplit,
    Money(usize),
}

/// The mathematical image of a game: every field as a plain value.
pub struct GameModel {
    pub rules: Ruleset,
    pub deck: Seq<Card>,
    pub dealer: Seq<Card>,
    pub hands: Seq<Seq<Card>>,
    pub chips: nat,
    pub bet: nat,
    pub state: State,
    pub last: Last,
    pub scores: Seq<Outcome>,
}

/// What an outcome pays at `finish`.
pub open spec fn spec_payout(o: Outcome) -> nat {
    match o {
        Outcome::Lose(_) => 0,
        Outcome::Win(w) => w as nat,
        Outcome::Blackjack(w) => w as nat,
        Outcome::Push(w) => w as nat,
    }
}

/// The sum of all recorded payouts.
pub open spec fn spec_total_payout(s: Seq<Outcome>) -> nat
    decreases s.len(),
{
    if s.len() == 0 {
        0
    } else {
        spec_total_payout(s.drop_last()) + spec_payout(s.last())
    }
}

/// A blackjack pays the floor of two and a half times the bet.
pub open spec fn spec_blackjack_payout(bet: nat) -> nat {
    2 * bet + bet / 2
}

/// The game's internal consistency: the hand list stays between one and
/// four hands; the hand being played has not busted and every hand still
/// waiting for its turn is an untouched two-card split hand; no hand and
/// neither party's card count can grow past a playable size; the bankroll
/// plus the round's bet stays under the chip cap; recorded payouts stay
/// bounded; and outcomes exist only once the round has been resolved.
pub open spec fn game_inv(m: GameModel) -> bool {
    &&& 1 <= m.hands.len() <= 4
    &&& (m.state matches State::Player(k) ==> (k as int) < m.hands.len() && !spec_bust(
        m.hands[k as int],
    ) && (forall|j: int| k < j < m.hands.len() ==> #[trigger] m.hands[j].len() == 2))
    &&& (forall|i: int| 0 <= i < m.hands.len() ==> #[trigger] m.hands[i].len() <= 22)
    &&& m.dealer.len() <= 22
    &&& m.chips + m.bet <= CHIP_CAP
    &&& (forall|i: int|
        0 <= i < m.scores.len() ==> #[trigger] spec_payout(m.scores[i]) <= 3 * CHIP_CAP)
    &&& m.scores.len() <= 4
    &&& ((m.state is Ready || m.state is Player || m.state is Dealer) ==> m.scores.len() == 0)
    &&& (m.state is Ready ==> m.bet == 0 && m.dealer.len() == 0)
}

/// The deck-exhaustion effect: the outstanding bet is refunded, the bet
/// zeroed, and the round moved to the dead `Error` state.
pub open spec fn spec_fatal(m: GameModel) -> GameModel {
    GameModel { chips: m.chips + m.bet, bet: 0, state: State::Error, ..m }
}

/// Where a finished hand passes the turn: to the next hand if one is
/// waiting, else to the given shared state.
pub open spec fn spec_update_state(m: GameModel, target: State) -> State {
    match m.state {
        State::Player(idx) => if (idx as int) < m.hands.len() - 1 {
            State::Player((idx + 1) as usize)
        } else {
            target
        },
        _ => target,
    }
}

/// The auto-advance rule: a hand that now shows a blackjack or a bust
/// takes no further input, so the turn moves on at once.
pub open spec fn spec_check_end(m: GameModel) -> GameModel {
    match m.state {
        State::Player(h) => if spec_blackjack(m.hands[h as int]) || spec_bust(m.hands[h as int]) {
            GameModel { state: spec_update_state(m, State::Dealer), ..m }
        } else {
            m
        },
        _ => m,
    }
}

/// Which action the given round position admits, and for which hand: the
/// hand index on success, the exact refusal otherwise.
pub open spec fn spec_valid_action(m: GameModel, action: Action) -> Result<usize, Error> {
    match m.state {
        State::Player(idx) => match action {
            Action::Hit => Ok(idx),
            Action::Stand => Ok(idx),
            Action::Double => if !m.rules.double_after_split && m.hands.len() > 1 {
                Err(Error::DoubleAfterSplit)
            } else if m.chips < m.bet {
                Err(Error::Money((m.bet - m.chips) as usize))
            } else {
                Ok(idx)
            },
            Action::Split => if !spec_can_split(m.hands, idx as int) {
                Err(Error::InvalidAction)
            } else if m.chips < m.bet {
                Err(Error::Money((m.bet - m.chips) as usize))
            } else {
                Ok(idx)
            },
            Action::Surrender => if m.rules.surrender && m.hands.len() == 1 && m.hands[0].len()
                == 2 {
                Ok(idx)
            } else {
                Err(Error::InvalidAction)
            },
        },
        _ => Err(Error::InvalidAction),
    }
}

/// A successful bet: the player's hands are reset to one empty hand, two
/// cards go to that hand and two to the dealer, dealt alternately from
/// the top of the shoe, the stake is debited, and the first hand's turn
/// begins — skipped at once if the deal is already a blackjack.
pub open spec fn spec_bet_done(m: GameModel, amount: nat) -> GameModel {
    let d = m.deck;
    let n = d.len() as int;
    spec_check_end(
        GameModel {
            deck: d.take(n - 4),
            dealer: m.dealer + seq![d[n - 2], d[n - 4]],
            hands: seq![seq![d[n - 1], d[n - 3]]],
            chips: (m.chips - amount) as nat,
            bet: m.bet + amount,
            state: State::Player(0),
            last: Last::Dealer(d[n - 4]),
            ..m
        },
    )
}

/// A hit: the top card joins the active hand; a bust passes the turn on.
pub open spec fn spec_hit_done(m: GameModel, idx: int) -> GameModel {
    let c = m.deck.last();
    spec_check_end(
        GameModel {
            deck: m.deck.drop_last(),
            hands: m.hands.update(idx, m.hands[idx].push(c)),
            last: Last::Player(c),
            ..m
        },
    )
}

/// A stand: the turn passes to the next hand, or to the dealer.
pub open spec fn spec_stand_done(m: GameModel) -> GameModel {
    spec_check_end(GameModel { state: spec_update_state(m, State::Dealer), ..m })
}

/// A double: the turn is forced onwards, a second stake is debited and
/// the round's bet doubled, and exactly one more card joins the hand.
pub open spec fn spec_double_done(m: GameModel, idx: int) -> GameModel {
    let c = m.deck.last();
    spec_check_end(
        GameModel {
            state: spec_update_state(m, State::Dealer),
            chips: (m.chips - m.bet) as nat,
            bet: m.bet + m.bet,
            deck: m.deck.drop_last(),
            hands: m.hands.update(idx, m.hands[idx].push(c)),
            last: Last::Player(c),
            ..m
        },
    )
}

/// A split: one more stake is debited, the pair's second card seeds a new
/// hand inserted right after the current one, and each of the two hands
/// draws one replacement card from the top of the shoe.
pub open spec fn spec_split_done(m: GameModel, idx: int) -> GameModel {
    let d = m.deck;
    let n = d.len() as int;
    let split = m.hands[idx].last();
    let first = m.hands[idx].drop_last().push(d[n - 1]);
    let second = seq![split, d[n - 2]];
    spec_check_end(
        GameModel {
            chips: (m.chips - m.bet) as nat,
            deck: d.take(n - 2),
            hands: m.hands.update(idx, first).insert(idx + 1, second),
            last: Last::Player(d[n - 2]),
            ..m
        },
    )
}

/// A surrender: the untouched opening hand is given up for half the
/// stake, recorded as a halved loss, and the round ends at once with no
/// dealer turn.
pub open spec fn spec_surrender_done(m: GameModel) -> GameModel {
    GameModel {
        state: State::Final,
        scores: m.scores + seq![Outcome::Lose((m.bet / 2) as usize)],
        ..m
    }
}

/// Whether the dealer still draws: there must be a surviving hand left to
/// beat, and the dealer's total must be below seventeen — or exactly a
/// soft seventeen when the rules do not make the dealer stand on it.
pub open spec fn spec_dealer_draws(m: GameModel) -> bool {
    &&& exists|i: int| 0 <= i < m.hands.len() && !spec_bust(m.hands[i])
    &&& (spec_score(m.dealer) < 17 || (spec_score(m.dealer) == 17 && spec_soft(m.dealer)
        && !m.rules.stand))
}

/// A hand's outcome against the final dealer hand: the hand's own bust
/// loses first; then a blackjack wins its bonus unless the dealer also
/// has one, which pushes; then a standing dealer with the higher total
/// wins; equal totals push; and otherwise — dealer bust or lower total —
/// the hand wins.
pub open spec fn spec_outcome(hand: Seq<Card>, dealer: Seq<Card>, bet: nat) -> Outcome {
    if spec_bust(hand) {
        Outcome::Lose(bet as usize)
    } else if spec_blackjack(hand) {
        if spec_blackjack(dealer) {
            Outcome::Push(bet as usize)
        } else {
            Outcome::Blackjack(spec_blackjack_payout(bet) as usize)
        }
    } else if spec_score(dealer) > spec_score(hand) && !spec_bust(dealer) {
        Outcome::Lose(bet as usize)
    } else if spec_score(dealer) == spec_score(hand) {
        Outcome::Push(bet as usize)
    } else {
        Outcome::Win((2 * bet) as usize)
    }
}

/// The dealer's resolution once drawing is over: every hand is scored
/// against the dealer's final hand and the round ends.
pub open spec fn spec_dealer_resolve(m: GameModel) -> GameModel {
    GameModel {
        state: State::Final,
        scores: m.scores + Seq::new(m.hands.len(), |i: int| spec_outcome(m.hands[i], m.dealer, m.bet)),
        ..m
    }
}

/// One dealer draw: the top card joins the dealer's hand and the round
/// stays in the dealer's turn.
pub open spec fn spec_dealer_draw_done(m: GameModel) -> GameModel {
    let c = m.deck.last();
    GameModel {
        deck: m.deck.drop_last(),
        dealer: m.dealer.push(c),
        last: Last::Dealer(c),
        ..m
    }
}

/// The sum of payouts of up to four bounded outcomes stays within its
/// linear bound.
proof fn lemma_total_payout_bound(s: Seq<Outcome>, cap: nat)
    requires
        forall|i: int| 0 <= i < s.len() ==> #[trigger] spec_payout(s[i]) <= cap,
    ensures
        spec_total_payout(s) <= s.len() * cap,
    decreases s.len(),
{
    if s.len() > 0 {
        lemma_total_payout_bound(s.drop_last(), cap);
        assert(spec_payout(s.last()) <= cap);
        assert((s.len() - 1) * cap + cap == s.len() * cap) by (nonlinear_arith);
    }
}

/// What the dealer's hand a viewer may see is: nothing before the deal,
/// everything once the dealer's turn or the end of the round has been
/// reached, and otherwise the up-cards with the first-dealt hole card
/// elided.
pub open spec fn spec_visible_dealer(m: GameModel) -> Seq<Card> {
    match m.state {
        State::Ready => Seq::empty(),
        State::Dealer => m.dealer,
        State::Final => m.dealer,
        _ => if m.dealer.len() >= 1 {
            m.dealer.skip(1)
        } else {
            Seq::empty()
        },
    }
}

/// Whether a snapshot faithfully projects the given game position.
pub open spec fn spec_view_matches(m: GameModel, v: View) -> bool {
    &&& v.bet == m.bet
    &&& v.rules == m.rules
    &&& v.state == m.state
    &&& v.last == m.last
    &&& v.scores@ == m.scores
    &&& v.player.chips == m.chips
    &&& spec_hands(v.player.hands@) == m.hands
    &&& v.dealer@ == spec_visible_dealer(m)
}

/// A faithful snapshot judges actions exactly as the live game does: the
/// validity of an action reads nothing a snapshot hides.
pub proof fn lemma_view_judges_like_the_game(m: GameModel, v: View, action: Action)
    requires
        spec_view_matches(m, v),
    ensures
        spec_valid_action(v.spec_model(), action) == spec_valid_action(m, action),
{
}

/// A read-only snapshot of a round for a caller: the same information as
/// the game itself, except that the dealer's hole card stays hidden until
/// the dealer's turn, and no reference back to the live game.
#[derive(Clone, Debug)]
pub struct View {
    pub bet: usize,
    pub rules: Ruleset,
    pub dealer: Hand,
    pub player: Player,
    pub state: State,
    pub last: Last,
    pub scores: Vec<Outcome>,
}

impl View {
    /// Checks an action against this snapshot: the active hand's index if
    /// the action would be accepted, the exact refusal otherwise.
    pub fn valid_action(&self, action: Action) -> (r: Result<usize, Error>)
        ensures
            r == spec_valid_action(self.spec_model(), action),
    {
        valid_action_exec(
            self.state,
            &self.rules,
            self.bet,
            &self.player,
            action,
            Ghost(self.spec_model()),
        )
    }

    /// The position this snapshot claims to show; the deck is not part of
    /// a snapshot and stays empty here.
    pub open spec fn spec_model(&self) -> GameModel {
        GameModel {
            rules: self.rules,
            deck: Seq::empty(),
            dealer: self.dealer@,
            hands: spec_hands(self.player.hands@),
            chips: self.player.chips as nat,
            bet: self.bet as nat,
            state: self.state,
            last: self.last,
            scores: self.scores@,
        }
    }
}

/// The shared validity check behind `View::valid_action` and
/// `Game::valid_action`; `m` is the model the caller's fields project to.
fn valid_action_exec(
    state: State,
    rules: &Ruleset,
    bet: usize,
    player: &Player,
    action: Action,
    Ghost(m): Ghost<GameModel>,
) -> (r: Result<usize, Error>)
    requires
        m.state == state,
        m.rules == *rules,
        m.bet == bet,
        m.chips == player.chips,
        m.hands == spec_hands(player.hands@),
    ensures
        r == spec_valid_action(m, action),
{
    match state {
        State::Player(idx) => match action {
            Action::Hit => Ok(idx),
            Action::Stand => Ok(idx),
            Action::Double => {
                if !rules.double_after_split && player.hands.len() > 1 {
                    Err(Error::DoubleAfterSplit)
                } else if player.chips < bet {
                    Err(Error::Money(bet - player.chips))
                } else {
                    Ok(idx)
                }
            },
            Action::Split => {
                if !player.can_split(idx) {
                    Err(Error::InvalidAction)
                } else if player.chips < bet {
                    Err(Error::Money(bet - player.chips))
                } else {
                    Ok(idx)
                }
            },
            Action::Surrender => {
                if rules.surrender && player.hands.len() == 1 && player.hands[0].cards.len() == 2 {
                    proof {
                        assert(m.hands[0].len() == 2);
                    }
                    Ok(idx)
                } else {
                    Err(Error::InvalidAction)
                }
            },
        },
        _ => Err(Error::InvalidAction),
    }
}

pub struct Game {
    rules: Ruleset,
    deck: Deck,
    dealer: Hand,
    player: Player,
    bet: usize,
    state: State,
    last: Last,
    scores: Vec<Outcome>,
}

impl Game {
    /// The game's mathematical image.
    pub closed spec fn model(&self) -> GameModel {
        GameModel {
            rules: self.rules,
            deck: self.deck@,
            dealer: self.dealer@,
            hands: spec_hands(self.player.hands@),
            chips: self.player.chips as nat,
            bet: self.bet as nat,
            state: self.state,
            last: self.last,
            scores: self.scores@,
        }
    }

    /// A game in `Ready` over an already prepared shoe, as the fairness
    /// protocol's verifier rebuilds it; the chip cap leaves room for every
    /// payout the round could owe.
    pub fn with_deck(rules: Ruleset, player: Player, deck: Deck) -> (g: Game)
        requires
            player.chips <= CHIP_CAP,
        ensures
            game_inv(g.model()),
            g.model() == (GameModel {
                rules,
                deck: deck@,
                dealer: Seq::<Card>::empty(),
                hands: seq![Seq::<Card>::empty()],
                chips: player.chips as nat,
                bet: 0,
                state: State::Ready,
                last: Last::Player(Card { rank: Rank::Three, suit: Suit::Clubs }),
                scores: Seq::<Outcome>::empty(),
            }),
    {
        let g = Game {
            rules,
            deck,
            dealer: Hand { cards: Vec::new() },
            player: Player { hands: vec![Hand { cards: Vec::new() }], chips: player.chips },
            bet: 0,
            state: State::Ready,
            last: Last::Player(Card { rank: Rank::Three, suit: Suit::Clubs }),
            scores: Vec::new(),
        };
        proof {
            assert(g.model().hands =~~= seq![Seq::<Card>::empty()]);
            assert(g.model().scores =~= Seq::<Outcome>::empty());
            assert(g.model().dealer =~= Seq::<Card>::empty());
        }
        g
    }

    /// A game over a fresh shoe of the ruleset's size, shuffled once with
    /// the house's generator.
    pub fn init(rules: Ruleset, player: Player, rng: &mut PCG32) -> (g: Game)
        requires
            52 * rules.decks <= usize::MAX,
            player.chips <= CHIP_CAP,
        ensures
            game_inv(g.model()),
            g.model() == (GameModel {
                rules,
                deck: spec_shuffle(spec_fresh_deck(rules.decks as int), *old(rng)).0,
                dealer: Seq::<Card>::empty(),
                hands: seq![Seq::<Card>::empty()],
                chips: player.chips as nat,
                bet: 0,
                state: State::Ready,
                last: Last::Player(Card { rank: Rank::Three, suit: Suit::Clubs }),
                scores: Seq::<Outcome>::empty(),
            }),
            *final(rng) == spec_shuffle(spec_fresh_deck(rules.decks as int), *old(rng)).1,
            final(rng).wf() == old(rng).wf(),
    {
        let mut deck = Deck::new(rules.decks);
        deck.shuffle(rng);
        Game::with_deck(rules, player, deck)
    }

    /// The deck commitment of the current order, as the house may publish
    /// it before the player sees a card.
    pub fn sha256(&self) -> (r: String)
        ensures
            r@ == spec_hex(sha256_of(spec_notation_bytes(self.model().deck))),
    {
        self.deck.sha256()
    }

    /// Checks an action against the live game: the active hand's index if
    /// the action would be accepted, the exact refusal otherwise.
    pub fn valid_action(&self, action: Action) -> (r: Result<usize, Error>)
        ensures
            r == spec_valid_action(self.model(), action),
    {
        valid_action_exec(
            self.state,
            &self.rules,
            self.bet,
            &self.player,
            action,
            Ghost(self.model()),
        )
    }

    /// While the game is still in `Ready` — before any bet — the player
    /// may shuffle the already house-shuffled shoe with their own
    /// generator.  Later the call does nothing: the order is locked.
    pub fn player_shuffle(&mut self, rng: &mut PCG32)
        requires
            game_inv(old(self).model()),
        ensures
            game_inv(final(self).model()),
            old(self).model().state == State::Ready ==> final(self).model() == (GameModel {
                deck: spec_shuffle(old(self).model().deck, *old(rng)).0,
                ..old(self).model()
            }) && *final(rng) == spec_shuffle(old(self).model().deck, *old(rng)).1,
            old(self).model().state != State::Ready ==> final(self).model() == old(self).model()
                && *final(rng) == *old(rng),
            final(rng).wf() == old(rng).wf(),
    {
        if self.state == State::Ready {
            self.deck.shuffle(rng);
        }
    }

    /// A snapshot of the current position, with the dealer's hand masked
    /// as the round phase allows.
    pub fn view(&self) -> (v: View)
        ensures
            spec_view_matches(self.model(), v),
    {
        let dealer: Hand = match self.state {
            State::Ready => Hand { cards: Vec::new() },
            State::Dealer => self.dealer.duplicate(),
            State::Final => self.dealer.duplicate(),
            _ => {
                let mut cards: Vec<Card> = Vec::new();
                let n = self.dealer.cards.len();
                let mut i: usize = 1;
                if n >= 1 {
                    while i < n
                        invariant
                            1 <= i <= n,
                            n == self.dealer@.len(),
                            cards@ == self.dealer@.skip(1).take(i - 1),
                        decreases n - i,
                    {
                        cards.push(self.dealer.cards[i]);
                        proof {
                            assert(self.dealer@.skip(1).take(i as int) =~= self.dealer@.skip(
                                1,
                            ).take(i - 1).push(self.dealer@[i as int]));
                        }
                        i = i + 1;
                    }
                }
                proof {
                    if n >= 1 {
                        assert(cards@ =~= self.dealer@.skip(1));
                    } else {
                        assert(cards@ =~= Seq::<Card>::empty());
                    }
                }
                Hand { cards }
            },
        };
        let mut scores: Vec<Outcome> = Vec::new();
        let sn = self.scores.len();
        let mut i: usize = 0;
        while i < sn
            invariant
                0 <= i <= sn,
                sn == self.scores@.len(),
                scores@ == self.scores@.take(i as int),
            decreases sn - i,
        {
            scores.push(self.scores[i]);
            proof {
                assert(self.scores@.take(i + 1) =~= self.scores@.take(i as int).push(
                    self.scores@[i as int],
                ));
            }
            i = i + 1;
        }
        proof {
            assert(self.scores@.take(sn as int) =~= self.scores@);
        }
        View {
            rules: self.rules,
            bet: self.bet,
            dealer,
            player: self.player.duplicate(),
            state: self.state,
            last: self.last,
            scores,
        }
    }

    /// Draws the top card, or declares the shoe exhausted: the fatal path
    /// refunds the outstanding bet and kills the round.
    fn draw(&mut self) -> (r: Result<Card, Error>)
        requires
            old(self).model().chips + old(self).model().bet <= usize::MAX,
        ensures
            old(self).model().deck.len() > 0 ==> r == Ok::<Card, Error>(
                old(self).model().deck.last(),
            ) && final(self).model() == (GameModel {
                deck: old(self).model().deck.drop_last(),
                ..old(self).model()
            }),
            old(self).model().deck.len() == 0 ==> r == Err::<Card, Error>(Error::Fatal)
                && final(self).model() == spec_fatal(old(self).model()),
    {
        match self.deck.draw() {
            Some(card) => Ok(card),
            None => {
                self.player.chips = self.player.chips + self.bet;
                self.state = State::Error;
                self.bet = 0;
                Err(Error::Fatal)
            },
        }
    }

    /// Passes the turn: to the next waiting hand if any, else to the
    /// given shared state.
    fn update_state(&mut self, state: State)
        requires
            old(self).model().hands.len() >= 1,
        ensures
            final(self).model() == (GameModel {
                state: spec_update_state(old(self).model(), state),
                ..old(self).model()
            }),
    {
        match self.state {
            State::Player(idx) => {
                if idx < self.player.hands.len() - 1 {
                    self.state = State::Player(idx + 1);
                } else {
                    self.state = state;
                }
            },
            _ => {
                self.state = state;
            },
        }
    }

    /// Applies the auto-advance rule to the hand being played.
    fn check_end_game(&mut self)
        requires
            old(self).model().hands.len() >= 1,
            old(self).model().state matches State::Player(k) ==> (k as int) < old(
                self,
            ).model().hands.len(),
        ensures
            final(self).model() == spec_check_end(old(self).model()),
    {
        match self.state {
            State::Player(hidx) => {
                if self.player.hands[hidx].blackjack() || self.player.hands[hidx].bust() {
                    self.update_state(State::Dealer);
                }
            },
            _ => {},
        }
    }

    /// The blackjack payout: the floor of two and a half times the bet.
    fn blackjack_amount(&self) -> (r: usize)
        requires
            2 * self.model().bet + self.model().bet / 2 <= usize::MAX,
        ensures
            r == spec_blackjack_payout(self.model().bet),
    {
        self.bet * 2 + self.bet / 2
    }

    /// Deals the opening cards: two to the player's single hand and two
    /// to the dealer, strictly alternating, player first.
    fn deal(&mut self)
        requires
            old(self).model().deck.len() >= 4,
            old(self).model().hands.len() == 1,
        ensures
            ({
                let m = old(self).model();
                let d = m.deck;
                let n = d.len() as int;
                final(self).model() == (GameModel {
                    deck: d.take(n - 4),
                    dealer: m.dealer + seq![d[n - 2], d[n - 4]],
                    hands: seq![m.hands[0] + seq![d[n - 1], d[n - 3]]],
                    last: Last::Dealer(d[n - 4]),
                    ..m
                })
            }),
    {
        let ghost m = old(self).model();
        let ghost d = m.deck;
        let ghost n = d.len() as int;
        let c = self.deck.draw().unwrap();
        self.player.hands[0].deal(c);
        let c = self.deck.draw().unwrap();
        self.dealer.deal(c);
        self.last = Last::Dealer(c);
        let c = self.deck.draw().unwrap();
        self.player.hands[0].deal(c);
        let c = self.deck.draw().unwrap();
        self.dealer.deal(c);
        self.last = Last::Dealer(c);
        proof {
            assert(self.deck@ =~= d.take(n - 4));
            assert(self.dealer@ =~= m.dealer + seq![d[n - 2], d[n - 4]]);
            assert(self.model().hands =~~= seq![m.hands[0] + seq![d[n - 1], d[n - 3]]]);
        }
    }

    /// Places the round's stake from `Ready`: refuses a zero bet, a bet
    /// the bankroll cannot cover, or any other phase; resets the player
    /// to one empty hand, deals two cards each and opens the first hand's
    /// turn.  A shoe too short for the opening deal is fatal: the round
    /// dies with nothing debited.
    pub fn bet(&mut self, amount: usize) -> (res: Result<View, Error>)
        requires
            game_inv(old(self).model()),
        ensures
            game_inv(final(self).model()),
            old(self).model().state != State::Ready ==> res == Err::<View, Error>(
                Error::InvalidAction,
            ) && final(self).model() == old(self).model(),
            old(self).model().state == State::Ready && amount == 0 ==> res == Err::<View, Error>(
                Error::InvalidAction,
            ) && final(self).model() == old(self).model(),
            old(self).model().state == State::Ready && amount > 0 && old(self).model().chips
                < amount ==> res == Err::<View, Error>(
                Error::Money((amount - old(self).model().chips) as usize),
            ) && final(self).model() == old(self).model(),
            old(self).model().state == State::Ready && amount > 0 && old(self).model().chips
                >= amount && old(self).model().deck.len() < 4 ==> res == Err::<View, Error>(
                Error::Fatal,
            ) && final(self).model() == spec_fatal(
                (GameModel { hands: seq![Seq::<Card>::empty()], ..old(self).model() }),
            ),
            old(self).model().state == State::Ready && amount > 0 && old(self).model().chips
                >= amount && old(self).model().deck.len() >= 4 ==> final(self).model()
                == spec_bet_done(old(self).model(), amount as nat) && (res matches Ok(v)
                && spec_view_matches(final(self).model(), v)),
    {
        if self.state != State::Ready {
            return Err(Error::InvalidAction);
        }
        if amount == 0 {
            return Err(Error::InvalidAction);
        }
        if self.player.chips < amount {
            return Err(Error::Money(amount - self.player.chips));
        }
        // the player must not bring a prepared hand into the deal
        self.player.hands = vec![Hand { cards: Vec::new() }];
        proof {
            assert(self.model().hands =~~= seq![Seq::<Card>::empty()]);
        }
        if self.deck.count() < 4 {
            self.player.chips = self.player.chips + self.bet;
            self.state = State::Error;
            self.bet = 0;
            return Err(Error::Fatal);
        }
        self.deal();
        self.player.chips = self.player.chips - amount;
        self.bet = self.bet + amount;
        self.state = State::Player(0);
        let ghost mid = self.model();
        proof {
            crate::player::lemma_two_card_not_bust(mid.hands[0]);
        }
        self.check_end_game();
        proof {
            assert(self.model() == spec_bet_done(old(self).model(), amount as nat));
        }
        Ok(self.view())
    }

    /// Plays one action on the active hand.  A refused action leaves the
    /// game untouched; an accepted one mutates the round exactly as the
    /// action's transition says, and an exhausted shoe kills the round
    /// with the outstanding bet refunded.
    pub fn player(&mut self, action: Action) -> (res: Result<View, Error>)
        requires
            game_inv(old(self).model()),
        ensures
            game_inv(final(self).model()),
            spec_valid_action(old(self).model(), action) matches Err(e) ==> res == Err::<
                View,
                Error,
            >(e) && final(self).model() == old(self).model(),
            spec_valid_action(old(self).model(), action) matches Ok(idx) ==> match action {
                Action::Hit => if old(self).model().deck.len() == 0 {
                    final(self).model() == spec_fatal(old(self).model()) && res == Err::<
                        View,
                        Error,
                    >(Error::Fatal)
                } else {
                    final(self).model() == spec_hit_done(old(self).model(), idx as int) && (
                    res matches Ok(v) && spec_view_matches(final(self).model(), v))
                },
                Action::Stand => final(self).model() == spec_stand_done(old(self).model()) && (
                res matches Ok(v) && spec_view_matches(final(self).model(), v)),
                Action::Double => if old(self).model().deck.len() == 0 {
                    final(self).model() == spec_fatal(old(self).model()) && res == Err::<
                        View,
                        Error,
                    >(Error::Fatal)
                } else {
                    final(self).model() == spec_double_done(old(self).model(), idx as int) && (
                    res matches Ok(v) && spec_view_matches(final(self).model(), v))
                },
                Action::Split => if old(self).model().deck.len() < 2 {
                    final(self).model() == spec_fatal(old(self).model()) && res == Err::<
                        View,
                        Error,
                    >(Error::Fatal)
                } else {
                    final(self).model() == spec_split_done(old(self).model(), idx as int) && (
                    res matches Ok(v) && spec_view_matches(final(self).model(), v))
                },
                Action::Surrender => final(self).model() == spec_surrender_done(
                    old(self).model(),
                ) && (res matches Ok(v) && spec_view_matches(final(self).model(), v)),
            },
    {
        let hidx = match self.valid_action(action) {
            Ok(i) => i,
            Err(e) => {
                return Err(e);
            },
        };
        match action {
            Action::Hit => {
                let card = match self.draw() {
                    Ok(c) => c,
                    Err(e) => {
                        return Err(e);
                    },
                };
                self.last = Last::Player(card);
                self.player.hands[hidx].deal(card);
                proof {
                    let m = old(self).model();
                    crate::player::lemma_score_at_least_len(m.hands[hidx as int]);
                    assert(self.model().hands =~~= m.hands.update(
                        hidx as int,
                        m.hands[hidx as int].push(m.deck.last()),
                    ));
                }
            },
            Action::Stand => {
                self.update_state(State::Dealer);
            },
            Action::Double => {
                if self.deck.count() == 0 {
                    self.player.chips = self.player.chips + self.bet;
                    self.state = State::Error;
                    self.bet = 0;
                    return Err(Error::Fatal);
                }
                self.update_state(State::Dealer);
                self.player.chips = self.player.chips - self.bet;
                self.bet = self.bet + self.bet;
                let card = match self.draw() {
                    Ok(c) => c,
                    Err(e) => {
                        return Err(e);
                    },
                };
                self.last = Last::Player(card);
                self.player.hands[hidx].deal(card);
                proof {
                    let m = old(self).model();
                    crate::player::lemma_score_at_least_len(m.hands[hidx as int]);
                    assert(self.model().hands =~~= m.hands.update(
                        hidx as int,
                        m.hands[hidx as int].push(m.deck.last()),
                    ));
                }
            },
            Action::Split => {
                if self.deck.count() < 2 {
                    self.player.chips = self.player.chips + self.bet;
                    self.state = State::Error;
                    self.bet = 0;
                    return Err(Error::Fatal);
                }
                self.player.chips = self.player.chips - self.bet;
                let split = match self.player.hands[hidx].cards.pop() {
                    Some(c) => c,
                    None => {
                        return Err(Error::Fatal);
                    },
                };
                let ghost m1 = self.model();
                proof {
                    let m = old(self).model();
                    assert forall|j: int| 0 <= j < m1.hands.len() && j != hidx as int implies
                        m1.hands[j] == m.hands[j] by {}
                    assert(m1.hands[hidx as int] == m.hands[hidx as int].drop_last());
                }
                let c1 = match self.draw() {
                    Ok(c) => c,
                    Err(e) => {
                        return Err(e);
                    },
                };
                proof {
                    assert(self.model().hands == m1.hands);
                    assert(self.player.hands@.len() == m1.hands.len());
                }
                self.player.hands[hidx].deal(c1);
                let ghost m2 = self.model();
                proof {
                    assert forall|j: int| 0 <= j < m2.hands.len() && j != hidx as int implies
                        m2.hands[j] == m1.hands[j] by {}
                    assert(m2.hands[hidx as int] == m1.hands[hidx as int].push(c1));
                }
                let c2 = match self.draw() {
                    Ok(c) => c,
                    Err(e) => {
                        return Err(e);
                    },
                };
                self.last = Last::Player(c2);
                proof {
                    assert(self.model().hands == m2.hands);
                    assert(self.player.hands@.len() == m2.hands.len());
                }
                let ghost m3 = self.model();
                self.player.hands.insert(hidx + 1, Hand { cards: vec![split, c2] });
                proof {
                    let m = old(self).model();
                    let d = m.deck;
                    let n = d.len() as int;
                    let hf = self.player.hands@;
                    let first = m.hands[hidx as int].drop_last().push(d[n - 1]);
                    let second = seq![m.hands[hidx as int].last(), d[n - 2]];
                    let target = m.hands.update(hidx as int, first).insert(hidx + 1, second);
                    assert(c1 == d[n - 1]);
                    assert(c2 == d[n - 2]);
                    assert(split == m.hands[hidx as int].last());
                    assert(hf.len() == target.len());
                    assert forall|j: int| 0 <= j < target.len() implies self.model().hands[j]
                        =~= target[j] by {
                        assert(self.model().hands[j] == hf[j]@);
                        if j < hidx as int {
                            assert(hf[j]@ == m3.hands[j]);
                            assert(target[j] == m.hands[j]);
                        } else if j == hidx as int {
                            assert(hf[j]@ == m3.hands[j]);
                            assert(m3.hands[j] == first);
                            assert(target[j] == first);
                        } else if j == hidx as int + 1 {
                            assert(hf[j]@ == seq![split, c2]);
                            assert(target[j] == second);
                        } else {
                            assert(hf[j]@ == m3.hands[j - 1]);
                            assert(target[j] == m.hands[j - 1]);
                        }
                    }
                    assert(self.model().hands =~~= target);
                    assert(self.model().deck =~= d.take(n - 2));
                }
            },
            Action::Surrender => {
                self.state = State::Final;
                self.scores.push(Outcome::Lose(self.bet / 2));
                proof {
                    let m = old(self).model();
                    assert(self.model().scores =~= m.scores + seq![
                        Outcome::Lose((m.bet / 2) as usize),
                    ]);
                }
            },
        }
        let ghost mid = self.model();
        self.check_end_game();
        proof {
            match mid.state {
                State::Player(k) => {
                    if (k as int) + 1 < mid.hands.len() {
                        crate::player::lemma_two_card_not_bust(mid.hands[k as int + 1]);
                    }
                },
                _ => {},
            }
        }
        Ok(self.view())
    }

    /// One step of the dealer's turn.  While a surviving hand remains and
    /// the dealer's total calls for a card — below seventeen, or a soft
    /// seventeen the rules do not stand on — one card is drawn per call.
    /// Once drawing is over, every hand is scored against the dealer's
    /// final hand and the round ends.
    pub fn dealer(&mut self) -> (res: Result<View, Error>)
        requires
            game_inv(old(self).model()),
        ensures
            game_inv(final(self).model()),
            old(self).model().state != State::Dealer ==> res == Err::<View, Error>(
                Error::InvalidAction,
            ) && final(self).model() == old(self).model(),
            old(self).model().state == State::Dealer && spec_dealer_draws(old(self).model())
                && old(self).model().deck.len() == 0 ==> final(self).model() == spec_fatal(
                old(self).model(),
            ) && res == Err::<View, Error>(Error::Fatal),
            old(self).model().state == State::Dealer && spec_dealer_draws(old(self).model())
                && old(self).model().deck.len() > 0 ==> final(self).model()
                == spec_dealer_draw_done(old(self).model()) && (res matches Ok(v)
                && spec_view_matches(final(self).model(), v)),
            old(self).model().state == State::Dealer && !spec_dealer_draws(old(self).model())
                ==> final(self).model() == spec_dealer_resolve(old(self).model()) && (
            res matches Ok(v) && spec_view_matches(final(self).model(), v)),
    {
        if self.state != State::Dealer {
            return Err(Error::InvalidAction);
        }
        let ghost m = old(self).model();
        let hand_count = self.player.hands.len();
        let mut alive = false;
        let mut i: usize = 0;
        while i < hand_count
            invariant
                0 <= i <= hand_count,
                hand_count == self.player.hands@.len(),
                self.model() == m,
                alive == exists|j: int| 0 <= j < i && !spec_bust(m.hands[j]),
            decreases hand_count - i,
        {
            if !self.player.hands[i].bust() {
                alive = true;
                proof {
                    assert(!spec_bust(m.hands[i as int]));
                }
            }
            i = i + 1;
        }
        let dealer_score = self.dealer.score();
        let draws = alive && (dealer_score < 17 || (dealer_score == 17 && self.dealer.soft()
            && !self.rules.stand));
        proof {
            assert(draws == spec_dealer_draws(m));
        }
        if draws {
            let card = match self.draw() {
                Ok(c) => c,
                Err(e) => {
                    return Err(e);
                },
            };
            self.dealer.deal(card);
            self.last = Last::Dealer(card);
            proof {
                crate::player::lemma_score_at_least_len(m.dealer);
            }
            Ok(self.view())
        } else {
            let dealer_bust = dealer_score > 21;
            let dealer_blackjack = self.dealer.blackjack();
            let ghost f = |j: int| spec_outcome(m.hands[j], m.dealer, m.bet);
            let mut i: usize = 0;
            while i < hand_count
                invariant
                    0 <= i <= hand_count,
                    hand_count == m.hands.len(),
                    game_inv(m),
                    m.state == State::Dealer,
                    m.chips + m.bet <= CHIP_CAP,
                    dealer_score == spec_score(m.dealer),
                    dealer_bust == spec_bust(m.dealer),
                    dealer_blackjack == spec_blackjack(m.dealer),
                    f == (|j: int| spec_outcome(m.hands[j], m.dealer, m.bet)),
                    self.model() == (GameModel { scores: m.scores + Seq::new(i as nat, f), ..m }),
                decreases hand_count - i,
            {
                let hand = &self.player.hands[i];
                let outcome = if hand.bust() {
                    Outcome::Lose(self.bet)
                } else if hand.blackjack() {
                    if dealer_blackjack {
                        Outcome::Push(self.bet)
                    } else {
                        Outcome::Blackjack(self.blackjack_amount())
                    }
                } else {
                    let hand_score = hand.score();
                    if dealer_score > hand_score && !dealer_bust {
                        Outcome::Lose(self.bet)
                    } else if dealer_score == hand_score {
                        Outcome::Push(self.bet)
                    } else {
                        Outcome::Win(self.bet * 2)
                    }
                };
                proof {
                    assert(outcome == f(i as int));
                }
                self.scores.push(outcome);
                proof {
                    assert(Seq::new((i + 1) as nat, f) =~= Seq::new(i as nat, f).push(f(i as int)));
                    assert(self.model().scores =~= m.scores + Seq::new((i + 1) as nat, f));
                }
                i = i + 1;
            }
            self.state = State::Final;
            proof {
                assert(Seq::new(hand_count as nat, f) =~= Seq::new(m.hands.len(), f));
                assert(self.model() == spec_dealer_resolve(m));
                assert forall|k: int| 0 <= k < self.model().scores.len() implies #[trigger]
                spec_payout(self.model().scores[k]) <= 3 * CHIP_CAP by {
                    assert(self.model().scores[k] == f(k));
                }
            }
            Ok(self.view())
        }
    }

    /// Settles the round: every recorded outcome's payout is folded back
    /// into the player's bankroll, and the player is handed back.  This is
    /// the only point at which chips ever increase, so a round pays
    /// nothing until it has fully resolved.  Outside `Final` the game is
    /// consumed with nothing paid.
    pub fn finish(self) -> (res: Result<Player, Error>)
        requires
            game_inv(self.model()),
        ensures
            self.model().state != State::Final ==> res == Err::<Player, Error>(
                Error::InvalidAction,
            ),
            self.model().state == State::Final ==> (res matches Ok(p) && p.chips
                == self.model().chips + spec_total_payout(self.model().scores) && spec_hands(
                p.hands@,
            ) == self.model().hands),
    {
        if self.state != State::Final {
            return Err(Error::InvalidAction);
        }
        let ghost m = self.model();
        let mut player = self.player;
        let scores = self.scores;
        let ghost chips0 = m.chips;
        let ghost hands0 = player.hands@;
        let n = scores.len();
        let mut i: usize = 0;
        while i < n
            invariant
                0 <= i <= n,
                n == scores@.len(),
                scores@ == m.scores,
                game_inv(m),
                chips0 == m.chips,
                player.chips == chips0 + spec_total_payout(scores@.take(i as int)),
                player.hands@ == hands0,
            decreases n - i,
        {
            proof {
                let t = scores@.take(i + 1);
                assert(t.drop_last() =~= scores@.take(i as int));
                assert(t.last() == scores@[i as int]);
                lemma_total_payout_bound(scores@.take(i as int), (3 * CHIP_CAP) as nat);
                assert(scores@.take(i as int).len() * ((3 * CHIP_CAP) as nat) <= 4 * (3
                    * CHIP_CAP)) by (nonlinear_arith)
                    requires
                        scores@.take(i as int).len() <= 4,
                ;
                assert(spec_payout(scores@[i as int]) <= 3 * CHIP_CAP);
                assert(16 * (usize::MAX / 16) <= usize::MAX) by (nonlinear_arith);
            }
            match scores[i] {
                Outcome::Lose(_) => {},
                Outcome::Win(w) => {
                    player.chips = player.chips + w;
                },
                Outcome::Blackjack(w) => {
                    player.chips = player.chips + w;
                },
                Outcome::Push(w) => {
                    player.chips = player.chips + w;
                },
            }
            i = i + 1;
        }
        proof {
            assert(scores@.take(n as int) =~= scores@);
        }
        Ok(player)
    }
}

} // verus!
