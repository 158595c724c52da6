//! The shoe: one or more standard fifty-two-card sets, shuffled in place
//! and drawn from the end.
//!
//! The fresh order is fixed so that a shuffle is reproducible from the
//! generator's seed alone, and the whole order can be rendered as a
//! notation string whose SHA-256 digest commits the house to it.
use vstd::prelude::*;

use crate::card::{spec_card_notation, Card, Rank, Suit};
use crate::digest::{digest_hex, sha256_of, spec_hex};
use crate::pcg::PCG32;
use vstd::string::StringExecFns;

verus! {

/// The rank at a position of the fixed enumeration order.
pub open spec fn spec_rank_order(i: int) -> Rank {
    if i == 0 {
        Rank::Two
    } else if i == 1 {
        Rank::Three
    } else if i == 2 {
        Rank::Four
    } else if i == 3 {
        Rank::Five
    } else if i == 4 {
        Rank::Six
    } else if i == 5 {
        Rank::Seven
    } else if i == 6 {
        Rank::Eight
    } else if i == 7 {
        Rank::Nine
    } else if i == 8 {
        Rank::Ten
    } else if i == 9 {
        Rank::Jack
    } else if i == 10 {
        Rank::Queen
    } else if i == 11 {
        Rank::King
    } else {
        Rank::Ace
    }
}

/// The suit at a position of the fixed enumeration order.
pub open spec fn spec_suit_order(i: int) -> Suit {
    if i == 0 {
        Suit::Hearts
    } else if i == 1 {
        Suit::Spades
    } else if i == 2 {
        Suit::Clubs
    } else {
        Suit::Diamonds
    }
}

/// The card at a position of one fresh fifty-two-card set: thirteen ranks
/// per suit, suits in the fixed order.
pub open spec fn spec_card_order(i: int) -> Card {
    Card { rank: spec_rank_order(i % 13), suit: spec_suit_order(i / 13) }
}

/// The unshuffled shoe of `count` sets, each in the fixed enumeration
/// order.
pub open spec fn spec_fresh_deck(count: int) -> Seq<Card> {
    Seq::new((52 * count) as nat, |i: int| spec_card_order(i % 52))
}

/// One pass of the shuffle over the first `k` positions: the position
/// `k - 1` is swapped with a generator draw uniform over `[0, k)`, the
/// position itself included, and the pass continues leftwards.
pub open spec fn spec_shuffle_from(s: Seq<Card>, rng: PCG32, k: nat) -> (Seq<Card>, PCG32)
    recommends
        k <= s.len(),
    decreases k,
{
    if k == 0 {
        (s, rng)
    } else {
        let i = k - 1;
        let draw = rng.spec_gen_range(k as u64);
        let j = draw.0 as int;
        let s2 = s.update(i, s[j]).update(j, s[i]);
        spec_shuffle_from(s2, draw.1, (k - 1) as nat)
    }
}

/// The in-place shuffle: positions are visited from last to first, each
/// swapped with a uniformly drawn position at or below it.
pub open spec fn spec_shuffle(s: Seq<Card>, rng: PCG32) -> (Seq<Card>, PCG32) {
    spec_shuffle_from(s, rng, s.len())
}

/// The whitespace-joined notation of a card sequence.
pub open spec fn spec_notation(s: Seq<Card>) -> Seq<char>
    decreases s.len(),
{
    if s.len() == 0 {
        Seq::empty()
    } else if s.len() == 1 {
        spec_card_notation(s[0])
    } else {
        spec_notation(s.drop_last()) + seq![' '] + spec_card_notation(s.last())
    }
}

/// The notation rendered as ASCII bytes, which is what gets hashed.
pub open spec fn spec_notation_bytes(s: Seq<Card>) -> Seq<u8> {
    spec_notation(s).map_values(|c: char| c as u8)
}

#[derive(Clone, Debug)]
pub struct Deck {
    cards: Vec<Card>,
}

impl View for Deck {
    type V = Seq<Card>;

    closed spec fn view(&self) -> Seq<Card> {
        self.cards@
    }
}

fn rank_order(i: usize) -> (r: Rank)
    requires
        i < 13,
    ensures
        r == spec_rank_order(i as int),
{
    match i {
        0 => Rank::Two,
        1 => Rank::Three,
        2 => Rank::Four,
        3 => Rank::Five,
        4 => Rank::Six,
        5 => Rank::Seven,
        6 => Rank::Eight,
        7 => Rank::Nine,
        8 => Rank::Ten,
        9 => Rank::Jack,
        10 => Rank::Queen,
        11 => Rank::King,
        _ => Rank::Ace,
    }
}

fn suit_order(i: usize) -> (r: Suit)
    requires
        i < 4,
    ensures
        r == spec_suit_order(i as int),
{
    match i {
        0 => Suit::Hearts,
        1 => Suit::Spades,
        2 => Suit::Clubs,
        _ => Suit::Diamonds,
    }
}

impl Deck {
    /// A shoe holding exactly the given cards, in the given order; the
    /// last card is the top.
    pub fn from_cards(cards: Vec<Card>) -> (r: Deck)
        ensures
            r@ == cards@,
    {
        Deck { cards }
    }

    /// A fresh shoe of `count` sets in the fixed enumeration order.  The
    /// bound on `count` only keeps the card total within an addressable
    /// length.
    pub fn new(count: usize) -> (r: Deck)
        requires
            52 * count <= usize::MAX,
        ensures
            r@ == spec_fresh_deck(count as int),
    {
        let total = 52 * count;
        let mut cards: Vec<Card> = Vec::new();
        let mut i: usize = 0;
        while i < total
            invariant
                0 <= i <= total,
                total == 52 * count,
                cards@.len() == i,
                forall|j: int| 0 <= j < i ==> cards@[j] == spec_card_order(j % 52),
            decreases total - i,
        {
            let k = i % 52;
            cards.push(Card { rank: rank_order(k % 13), suit: suit_order(k / 13) });
            proof {
                assert(k == i % 52);
                assert((i as int) % 52 == k as int);
                assert(spec_card_order(i as int % 52) == Card {
                    rank: spec_rank_order(k as int % 13),
                    suit: spec_suit_order(k as int / 13),
                });
            }
            i = i + 1;
        }
        let deck = Deck { cards };
        proof {
            assert(deck@ =~= spec_fresh_deck(count as int));
        }
        deck
    }

    /// The in-place shuffle: every position from last to first is swapped
    /// with a generator draw uniform over the positions at or below it,
    /// the position itself included.
    pub fn shuffle(&mut self, rng: &mut PCG32)
        ensures
            final(self)@ == spec_shuffle(old(self)@, *old(rng)).0,
            *final(rng) == spec_shuffle(old(self)@, *old(rng)).1,
            final(rng).wf() == old(rng).wf(),
    {
        let n = self.cards.len();
        let mut k: usize = n;
        while k > 0
            invariant
                0 <= k <= n,
                self@.len() == n,
                rng.wf() == old(rng).wf(),
                spec_shuffle_from(self@, *rng, k as nat) == spec_shuffle(old(self)@, *old(rng)),
            decreases k,
        {
            let ghost pre_cards = self@;
            let ghost pre_rng = *rng;
            let i = k - 1;
            let j = rng.gen_range(k as u64) as usize;
            let a = self.cards[i];
            let b = self.cards[j];
            self.cards[i] = b;
            self.cards[j] = a;
            proof {
                assert(self@ =~= pre_cards.update(i as int, pre_cards[j as int]).update(
                    j as int,
                    pre_cards[i as int],
                ));
                assert(spec_shuffle_from(pre_cards, pre_rng, k as nat) == spec_shuffle_from(
                    self@,
                    *rng,
                    (k - 1) as nat,
                ));
            }
            k = i;
        }
    }

    /// How many cards are left in the shoe.
    pub fn count(&self) -> (r: usize)
        ensures
            r == self@.len(),
    {
        self.cards.len()
    }

    /// Removes and returns the top of the shoe, the last card; an empty
    /// shoe yields nothing.
    pub fn draw(&mut self) -> (r: Option<Card>)
        ensures
            old(self)@.len() == 0 ==> r is None && final(self)@ == old(self)@,
            old(self)@.len() > 0 ==> r == Some(old(self)@.last()) && final(self)@ == old(
                self,
            )@.drop_last(),
    {
        self.cards.pop()
    }

    /// The notation of the current order: two characters per card, joined
    /// by single spaces.
    pub fn notation(&self) -> (r: String)
        ensures
            r@ == spec_notation(self@),
    {
        let mut s = String::new();
        let n = self.cards.len();
        let mut i: usize = 0;
        while i < n
            invariant
                0 <= i <= n,
                n == self@.len(),
                s@ == spec_notation(self@.take(i as int)),
            decreases n - i,
        {
            if i > 0 {
                proof {
                    reveal_strlit(" ");
                    assert(" "@ =~= seq![' ']);
                }
                s.append(" ");
            }
            let card = self.cards[i];
            let note = card.notation();
            s.append(note.as_str());
            proof {
                let t = self@.take(i + 1);
                assert(t.drop_last() =~= self@.take(i as int));
                assert(t.last() == self@[i as int]);
                if i == 0 {
                    assert(t.len() == 1 && t[0] == self@[0]);
                }
                assert(s@ =~= spec_notation(t));
            }
            i = i + 1;
        }
        proof {
            assert(self@.take(n as int) =~= self@);
        }
        s
    }

    /// The notation rendered as ASCII bytes, for hashing.
    fn notation_bytes(&self) -> (r: Vec<u8>)
        ensures
            r@ == spec_notation_bytes(self@),
    {
        let mut b: Vec<u8> = Vec::new();
        let n = self.cards.len();
        let mut i: usize = 0;
        while i < n
            invariant
                0 <= i <= n,
                n == self@.len(),
                b@ == spec_notation_bytes(self@.take(i as int)),
            decreases n - i,
        {
            if i > 0 {
                b.push(' ' as u8);
            }
            let card = self.cards[i];
            b.push(card.rank_byte());
            b.push(card.suit_byte());
            proof {
                let t = self@.take(i + 1);
                assert(t.drop_last() =~= self@.take(i as int));
                assert(t.last() == self@[i as int]);
                if i == 0 {
                    assert(t.len() == 1 && t[0] == self@[0]);
                }
                assert(b@ =~= spec_notation(t).map_values(|c: char| c as u8));
            }
            i = i + 1;
        }
        proof {
            assert(self@.take(n as int) =~= self@);
        }
        b
    }

    /// The deck commitment: the lowercase hex SHA-256 digest of the
    /// notation of the current order.
    pub fn sha256(&self) -> (r: String)
        ensures
            r@ == spec_hex(sha256_of(spec_notation_bytes(self@))),
    {
        let bytes = self.notation_bytes();
        digest_hex(bytes.as_slice())
    }
}

/// Swapping two positions of a sequence rearranges it without changing
/// what it holds.
proof fn lemma_swap_preserves_multiset(s: Seq<Card>, i: int, j: int)
    requires
        0 <= i < s.len(),
        0 <= j < s.len(),
    ensures
        s.update(i, s[j]).update(j, s[i]).to_multiset() == s.to_multiset(),
{
    let s1 = s.update(i, s[j]);
    vstd::seq_lib::to_multiset_update(s, i, s[j]);
    vstd::seq_lib::to_multiset_update(s1, j, s[i]);
    s.to_multiset_ensures();
    assert(s.contains(s[i]));
    assert(s.contains(s[j]));
    assert(s1[j] == s[j]);
    assert(s1.update(j, s[i]).to_multiset() =~= s.to_multiset());
}

proof fn lemma_shuffle_from_permutes(s: Seq<Card>, rng: PCG32, k: nat)
    requires
        k <= s.len(),
        k <= u64::MAX,
    ensures
        spec_shuffle_from(s, rng, k).0.to_multiset() == s.to_multiset(),
        spec_shuffle_from(s, rng, k).0.len() == s.len(),
    decreases k,
{
    if k > 0 {
        let i = k - 1;
        let draw = rng.spec_gen_range(k as u64);
        crate::pcg::lemma_gen_range_bound(rng, k as u64);
        let j = draw.0 as int;
        let s2 = s.update(i as int, s[j]).update(j, s[i as int]);
        lemma_swap_preserves_multiset(s, i as int, j);
        lemma_shuffle_from_permutes(s2, draw.1, (k - 1) as nat);
    }
}

/// The shuffle only rearranges: the shuffled shoe holds exactly the
/// cards of the shoe it started from, however the generator drew.
pub proof fn lemma_shuffle_is_permutation(s: Seq<Card>, rng: PCG32)
    requires
        s.len() <= u64::MAX,
    ensures
        spec_shuffle(s, rng).0.to_multiset() == s.to_multiset(),
        spec_shuffle(s, rng).0.len() == s.len(),
{
    lemma_shuffle_from_permutes(s, rng, s.len());
}

/// Shuffling with a generator restored from the original generator's own
/// seed gives the byte-identical order, and so the identical notation and
/// the identical commitment digest: determinism and seed serialization
/// are exact inverses.
pub proof fn lemma_shuffle_replay(cards: Seq<Card>, rng: PCG32)
    requires
        rng.wf(),
    ensures
        spec_shuffle(cards, PCG32::spec_from_seed(rng.spec_to_seed())) == spec_shuffle(cards, rng),
        spec_notation(spec_shuffle(cards, PCG32::spec_from_seed(rng.spec_to_seed())).0)
            == spec_notation(spec_shuffle(cards, rng).0),
        spec_hex(
            sha256_of(
                spec_notation_bytes(spec_shuffle(cards, PCG32::spec_from_seed(rng.spec_to_seed())).0),
            ),
        ) == spec_hex(sha256_of(spec_notation_bytes(spec_shuffle(cards, rng).0))),
{
    crate::pcg::lemma_seed_round_trip(rng);
}

} // verus!
