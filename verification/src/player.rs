//! Hands and the player's bankroll.
//!
//! A hand is an append-only sequence of cards.  Its score counts every ace
//! as eleven first and then recounts aces as one, one at a time, while the
//! total is above twenty-one.
use vstd::prelude::*;

use crate::card::{spec_card_points, spec_is_ace, Card};

verus! {

/// Raw points of a card sequence with every ace counted as eleven.
pub open spec fn spec_hand_points(s: Seq<Card>) -> int
    decreases s.len(),
{
    if s.len() == 0 {
        0
    } else {
        spec_hand_points(s.drop_last()) + spec_card_points(s.last())
    }
}

/// How many aces a card sequence holds.
pub open spec fn spec_ace_count(s: Seq<Card>) -> int
    decreases s.len(),
{
    if s.len() == 0 {
        0
    } else {
        spec_ace_count(s.drop_last()) + if spec_is_ace(s.last()) {
            1int
        } else {
            0int
        }
    }
}

/// How many aces must be recounted from eleven down to one: the least
/// number that brings the raw points to twenty-one or below, capped at the
/// number of aces present.
pub open spec fn spec_reductions(s: Seq<Card>) -> int {
    let p = spec_hand_points(s);
    let a = spec_ace_count(s);
    if p <= 21 {
        0
    } else {
        let need = (p - 21 + 9) / 10;
        if need <= a {
            need
        } else {
            a
        }
    }
}

/// The score of a card sequence: raw points minus ten per recounted ace.
pub open spec fn spec_score(s: Seq<Card>) -> int {
    spec_hand_points(s) - 10 * spec_reductions(s)
}

/// A hand is soft while at least one ace is still counted as eleven.
pub open spec fn spec_soft(s: Seq<Card>) -> bool {
    spec_ace_count(s) > spec_reductions(s)
}

pub open spec fn spec_bust(s: Seq<Card>) -> bool {
    spec_score(s) > 21
}

/// A blackjack is exactly two cards summing to twenty-one, with no further
/// card dealt.
pub open spec fn spec_blackjack(s: Seq<Card>) -> bool {
    s.len() == 2 && spec_hand_points(s) == 21
}

/// A pair may be split when both cards are worth the same points, not
/// necessarily of the same rank.
pub open spec fn spec_splittable(s: Seq<Card>) -> bool {
    s.len() == 2 && spec_card_points(s[0]) == spec_card_points(s[1])
}

/// Raw points and ace count stay within linear bounds of the hand size.
pub proof fn lemma_points_bounds(s: Seq<Card>)
    ensures
        0 <= spec_ace_count(s) <= s.len(),
        2 * (s.len() - spec_ace_count(s)) + 11 * spec_ace_count(s) <= spec_hand_points(s) <= 11
            * s.len(),
    decreases s.len(),
{
    if s.len() > 0 {
        lemma_points_bounds(s.drop_last());
        assert(2 <= spec_card_points(s.last()) <= 11);
        assert(spec_is_ace(s.last()) ==> spec_card_points(s.last()) == 11);
    }
}

/// Every card contributes at least one point to the final score, so a hand
/// that has not busted holds at most twenty-one cards.
pub proof fn lemma_score_at_least_len(s: Seq<Card>)
    ensures
        spec_score(s) >= s.len(),
{
    lemma_points_bounds(s);
    let p = spec_hand_points(s);
    let a = spec_ace_count(s);
    let r = spec_reductions(s);
    assert(r <= a);
    assert(p - 10 * r >= p - 10 * a >= 2 * (s.len() - a) + 11 * a - 10 * a >= s.len());
}

/// The score applies the minimum number of ace reductions that brings the
/// total to twenty-one or below, and never more reductions than there are
/// aces: any smaller number of reductions leaves the total above
/// twenty-one, and the score stays above twenty-one only when every ace
/// has already been recounted as one.  Since the total falls as the
/// reduction count grows, the one-step clause below says that every
/// smaller reduction count leaves the total above twenty-one.
pub proof fn lemma_score_minimal_reductions(s: Seq<Card>)
    ensures
        0 <= spec_reductions(s) <= spec_ace_count(s),
        spec_score(s) == spec_hand_points(s) - 10 * spec_reductions(s),
        spec_score(s) > 21 ==> spec_reductions(s) == spec_ace_count(s),
        spec_reductions(s) > 0 ==> spec_hand_points(s) - 10 * (spec_reductions(s) - 1) > 21,
{
    lemma_points_bounds(s);
    let p = spec_hand_points(s);
    let red = spec_reductions(s);
    if p > 21 {
        let need = (p - 21 + 9) / 10;
        assert(10 * need >= p - 21 && 10 * (need - 1) < p - 21) by (nonlinear_arith)
            requires
                p > 21,
                need == (p - 21 + 9) / 10,
        ;
    }
}

/// The raw points of a two-card hand are the two cards' points, and its
/// aces are the two cards' aces.
pub proof fn lemma_two_card_points(s: Seq<Card>)
    requires
        s.len() == 2,
    ensures
        spec_hand_points(s) == spec_card_points(s[0]) + spec_card_points(s[1]),
        spec_ace_count(s) == (if spec_is_ace(s[0]) {
            1int
        } else {
            0int
        }) + (if spec_is_ace(s[1]) {
            1int
        } else {
            0int
        }),
{
    assert(s.drop_last().drop_last() =~= Seq::<Card>::empty());
    assert(s.drop_last().last() == s[0]);
    assert(s.last() == s[1]);
    assert(spec_hand_points(Seq::<Card>::empty()) == 0);
    assert(spec_hand_points(s.drop_last()) == spec_hand_points(s.drop_last().drop_last())
        + spec_card_points(s.drop_last().last()));
    assert(spec_hand_points(s) == spec_hand_points(s.drop_last()) + spec_card_points(s.last()));
    assert(spec_ace_count(Seq::<Card>::empty()) == 0);
    assert(spec_ace_count(s.drop_last()) == spec_ace_count(s.drop_last().drop_last()) + if
    spec_is_ace(s.drop_last().last()) {
        1int
    } else {
        0int
    });
    assert(spec_ace_count(s) == spec_ace_count(s.drop_last()) + if spec_is_ace(s.last()) {
        1int
    } else {
        0int
    });
}

/// A two-card hand can never bust: the worst pair of cards is two aces,
/// and one of them is then recounted as one.
pub proof fn lemma_two_card_not_bust(s: Seq<Card>)
    requires
        s.len() == 2,
    ensures
        !spec_bust(s),
{
    lemma_two_card_points(s);
    let p = spec_hand_points(s);
    if p > 21 {
        assert(spec_card_points(s[0]) <= 11 && spec_card_points(s[1]) <= 11);
        assert(p == 22);
        assert(spec_card_points(s[0]) == 11 && spec_card_points(s[1]) == 11);
        assert(spec_is_ace(s[0]) && spec_is_ace(s[1]));
        assert(spec_ace_count(s) == 2);
        assert(spec_reductions(s) == 1);
        assert(spec_score(s) == 12);
    }
}

#[derive(Clone, Debug)]
pub struct Hand {
    pub cards: Vec<Card>,
}

impl View for Hand {
    type V = Seq<Card>;

    open spec fn view(&self) -> Seq<Card> {
        self.cards@
    }
}

impl Default for Hand {
    /// An empty hand.
    fn default() -> (r: Hand)
        ensures
            r@ == Seq::<Card>::empty(),
    {
        Hand { cards: Vec::new() }
    }
}

impl Hand {
    /// The raw points of the first two cards, if at least two were dealt.
    fn initial_hand(&self) -> (r: Option<u8>)
        ensures
            match r {
                Some(v) => self@.len() >= 2 && v == spec_card_points(self@[0]) + spec_card_points(
                    self@[1],
                ),
                None => self@.len() < 2,
            },
    {
        if self.cards.len() >= 2 {
            Some(self.cards[0].add(self.cards[1]).max())
        } else {
            None
        }
    }

    /// Score, ace count and reduction count in one pass; totals are carried
    /// in wide integers so that the count is defined for any hand.
    fn counts(&self) -> (r: (u128, u128, u128))
        ensures
            r.0 == spec_score(self@),
            r.1 == spec_ace_count(self@),
            r.2 == spec_reductions(self@),
    {
        let n = self.cards.len();
        let mut total: u128 = 0;
        let mut aces: u128 = 0;
        let mut i: usize = 0;
        while i < n
            invariant
                n == self@.len(),
                0 <= i <= n,
                total == spec_hand_points(self@.take(i as int)),
                aces == spec_ace_count(self@.take(i as int)),
            decreases n - i,
        {
            proof {
                lemma_points_bounds(self@.take(i as int));
                assert(self@.take(i + 1).drop_last() =~= self@.take(i as int));
                assert(self@.take(i + 1).last() == self@[i as int]);
            }
            let v = self.cards[i].value();
            total = total + v.max() as u128;
            if self.cards[i].soft() {
                aces = aces + 1;
            }
            i = i + 1;
        }
        proof {
            assert(self@.take(n as int) =~= self@);
            lemma_points_bounds(self@);
        }
        let ghost p = spec_hand_points(self@);
        let mut red: u128 = 0;
        while total > 21 && red < aces
            invariant
                aces == spec_ace_count(self@),
                0 <= red <= aces,
                total == p - 10 * red,
                red > 0 ==> p - 10 * (red - 1) > 21,
            decreases total,
        {
            total = total - 10;
            red = red + 1;
        }
        proof {
            let need = (p - 21 + 9) / 10;
            if p > 21 {
                assert(10 * need >= p - 21 && 10 * (need - 1) < p - 21) by (nonlinear_arith)
                    requires
                        p > 21,
                        need == (p - 21 + 9) / 10,
                ;
            }
            if total <= 21 && p > 21 {
                assert(red == need);
            }
        }
        (total, aces, red)
    }

    /// The hand's score under the minimal-ace-reduction rule.  The bound on
    /// the hand size only ensures that the score fits the return type.
    pub fn score(&self) -> (r: usize)
        requires
            11 * self@.len() <= usize::MAX,
        ensures
            r == spec_score(self@),
    {
        proof {
            lemma_points_bounds(self@);
            lemma_score_at_least_len(self@);
        }
        let (total, _, _) = self.counts();
        total as usize
    }

    /// Whether at least one ace is still counted as eleven.
    pub fn soft(&self) -> (r: bool)
        ensures
            r == spec_soft(self@),
    {
        let (_, aces, red) = self.counts();
        red < aces
    }

    pub fn ace_count(&self) -> (r: usize)
        ensures
            r == spec_ace_count(self@),
    {
        let mut aces: usize = 0;
        let mut i: usize = 0;
        let n = self.cards.len();
        while i < n
            invariant
                n == self@.len(),
                0 <= i <= n,
                aces == spec_ace_count(self@.take(i as int)),
                aces <= i,
            decreases n - i,
        {
            proof {
                assert(self@.take(i + 1).drop_last() =~= self@.take(i as int));
                assert(self@.take(i + 1).last() == self@[i as int]);
            }
            if self.cards[i].soft() {
                aces = aces + 1;
            }
            i = i + 1;
        }
        proof {
            assert(self@.take(n as int) =~= self@);
        }
        aces
    }

    /// Whether the hand is a blackjack: two cards, no more, summing to
    /// twenty-one.
    pub fn blackjack(&self) -> (r: bool)
        ensures
            r == spec_blackjack(self@),
    {
        if self.cards.len() != 2 {
            return false;
        }
        proof {
            lemma_two_card_points(self@);
        }
        match self.initial_hand() {
            Some(v) => v == 21,
            None => false,
        }
    }

    /// Whether the hand's score exceeds twenty-one.
    pub fn bust(&self) -> (r: bool)
        ensures
            r == spec_bust(self@),
    {
        let (total, _, _) = self.counts();
        total > 21
    }

    pub fn is_splittable(&self) -> (r: bool)
        ensures
            r == spec_splittable(self@),
    {
        if self.cards.len() == 2 {
            self.cards[0].value() == self.cards[1].value()
        } else {
            false
        }
    }

    pub fn count(&self) -> (r: usize)
        ensures
            r == self@.len(),
    {
        self.cards.len()
    }

    /// Appends a card; a hand never gives a card back except at a split.
    pub fn deal(&mut self, card: Card)
        ensures
            final(self)@ == old(self)@.push(card),
    {
        self.cards.push(card)
    }

    /// A card-for-card copy of the hand.
    pub fn duplicate(&self) -> (r: Hand)
        ensures
            r@ == self@,
    {
        let mut cards: Vec<Card> = Vec::new();
        let n = self.cards.len();
        let mut i: usize = 0;
        while i < n
            invariant
                n == self@.len(),
                0 <= i <= n,
                cards@ == self@.take(i as int),
            decreases n - i,
        {
            cards.push(self.cards[i]);
            proof {
                assert(self@.take(i + 1) =~= self@.take(i as int).push(self@[i as int]));
            }
            i = i + 1;
        }
        proof {
            assert(self@.take(n as int) =~= self@);
        }
        Hand { cards }
    }
}

/// Whether the hand at `idx` may be split: the hand count is below four, no
/// earlier split has created a pair of aces, and the hand is a two-card
/// pair of equal value.
pub open spec fn spec_can_split(hands: Seq<Seq<Card>>, idx: int) -> bool {
    if hands.len() >= 4 {
        false
    } else if hands.len() > 1 && hands[0].len() > 0 && spec_is_ace(hands[0][0]) {
        false
    } else {
        0 <= idx < hands.len() && spec_splittable(hands[idx])
    }
}

#[derive(Clone, Debug)]
pub struct Player {
    pub hands: Vec<Hand>,
    pub chips: usize,
}

/// The card sequences of a list of hands.
pub open spec fn spec_hands(hands: Seq<Hand>) -> Seq<Seq<Card>> {
    hands.map_values(|h: Hand| h@)
}

impl Player {
    /// A funded player with a single empty hand.
    pub fn new(chips: usize) -> (r: Player)
        ensures
            r.chips == chips,
            r.hands@.len() == 1,
            r.hands@[0]@ == Seq::<Card>::empty(),
    {
        Player { hands: vec![Hand { cards: Vec::new() }], chips }
    }

    /// Whether the hand at `idx` may be split under the pair, ceiling and
    /// no-resplit-aces rules.
    pub fn can_split(&self, idx: usize) -> (r: bool)
        ensures
            r == spec_can_split(spec_hands(self.hands@), idx as int),
    {
        if self.hands.len() >= 4 {
            return false;
        }
        if self.hands.len() > 1 {
            let first = &self.hands[0];
            if first.cards.len() > 0 && first.cards[0].soft() {
                return false;
            }
        }
        if idx < self.hands.len() {
            self.hands[idx].is_splittable()
        } else {
            false
        }
    }

    /// A hand-for-hand copy of the player.
    pub fn duplicate(&self) -> (r: Player)
        ensures
            r.chips == self.chips,
            spec_hands(r.hands@) == spec_hands(self.hands@),
            r.hands@.len() == self.hands@.len(),
    {
        let mut hands: Vec<Hand> = Vec::new();
        let n = self.hands.len();
        let mut i: usize = 0;
        while i < n
            invariant
                n == self.hands@.len(),
                0 <= i <= n,
                hands@.len() == i,
                forall|j: int| 0 <= j < i ==> hands@[j]@ == self.hands@[j]@,
            decreases n - i,
        {
            hands.push(self.hands[i].duplicate());
            i = i + 1;
        }
        proof {
            assert(spec_hands(hands@) =~= spec_hands(self.hands@));
        }
        Player { hands, chips: self.chips }
    }
}

} // verus!
