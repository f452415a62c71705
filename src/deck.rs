//! The draw pile.
use crate::card::{card_of, full_deck, Card};
use rand::seq::SliceRandom;
use vstd::prelude::*;

verus! {

/// Relies on rand's `SliceRandom::shuffle` with the thread-local generator:
/// it only swaps elements, so the cards after the call are a permutation of
/// those before.
#[verifier::external_body]
fn shuffle_cards(cards: &mut Vec<Card>)
    ensures
        final(cards)@.to_multiset() == old(cards)@.to_multiset(),
{
    cards.shuffle(&mut rand::thread_rng());
}

/// The top `n` cards of `s`, topmost first (the order in which they are drawn).
pub open spec fn top_down(s: Seq<Card>, n: nat) -> Seq<Card> {
    Seq::new(n, |j: int| s[s.len() - 1 - j])
}

#[derive(Clone, Copy, Debug, PartialEq, Eq, Structural)]
pub enum DrawCardError {
    NoCardsLeft,
}

/// Drawing the top `n` cards keeps every card: those left and those drawn
/// together are the cards before.
pub proof fn lemma_draw_keeps_cards(s: Seq<Card>, n: nat)
    requires
        n <= s.len(),
    ensures
        s.to_multiset() == s.subrange(0, s.len() - n).to_multiset().add(
            top_down(s, n).to_multiset(),
        ),
{
    let k = s.len() - n;
    assert(s =~= s.subrange(0, k) + s.subrange(k, s.len() as int));
    vstd::seq_lib::lemma_multiset_commutative(s.subrange(0, k), s.subrange(k, s.len() as int));
    assert(top_down(s, n) =~= s.subrange(k, s.len() as int).reverse());
    s.subrange(k, s.len() as int).lemma_reverse_to_multiset();
}

/// Number of discard pile cards that a recycle moves to the draw pile: all but
/// the top card.
pub open spec fn recyclable(discard: Seq<Card>) -> nat {
    if discard.len() == 0 {
        0
    } else {
        (discard.len() - 1) as nat
    }
}

/// The draw pile; its last element is the top card.
pub struct Deck {
    pub cards: Vec<Card>,
}

impl Deck {
    /// All 32 cards in a random order.
    pub fn new() -> (d: Deck)
        ensures
            d.cards@.to_multiset() == full_deck().to_multiset(),
            d.cards@.len() == 32,
    {
        let mut cards = ordered_cards();
        let ghost before = cards@;
        shuffle_cards(&mut cards);
        proof {
            broadcast use vstd::seq_lib::group_to_multiset_ensures;
            assert(before.to_multiset().len() == before.len());
            assert(cards@.to_multiset().len() == cards@.len());
        }
        Deck { cards }
    }

    /// Takes the top card, or `None` when the pile is empty.
    pub fn draw(&mut self) -> (r: Option<Card>)
        ensures
            old(self).cards@.len() == 0 ==> r is None && final(self).cards@ == old(self).cards@,
            old(self).cards@.len() > 0 ==> r == Some(old(self).cards@.last())
                && final(self).cards@ == old(self).cards@.drop_last(),
    {
        self.cards.pop()
    }

    /// Takes the top `n` cards, topmost first, or nothing at all when fewer
    /// than `n` are left.
    pub fn draw_many(&mut self, n: usize) -> (r: Option<Vec<Card>>)
        ensures
            n > old(self).cards@.len() ==> r is None && final(self).cards@ == old(self).cards@,
            n <= old(self).cards@.len() ==> r is Some
                && r.unwrap()@ == top_down(old(self).cards@, n as nat)
                && final(self).cards@ == old(self).cards@.subrange(
                0,
                old(self).cards@.len() - n,
            ),
    {
        if n > self.cards.len() {
            return None;
        }
        let ghost start = self.cards@;
        let mut drawn: Vec<Card> = Vec::new();
        let mut i: usize = 0;
        while i < n
            invariant
                i <= n,
                n <= start.len(),
                self.cards@ == start.subrange(0, start.len() - i),
                drawn@ == top_down(start, i as nat),
            decreases n - i,
        {
            let c = self.cards.pop().unwrap();
            drawn.push(c);
            i = i + 1;
            assert(drawn@ =~= top_down(start, i as nat));
            assert(self.cards@ =~= start.subrange(0, start.len() - i));
        }
        Some(drawn)
    }

    /// Puts the cards in a random order.
    pub fn shuffle(&mut self)
        ensures
            final(self).cards@.to_multiset() == old(self).cards@.to_multiset(),
    {
        shuffle_cards(&mut self.cards);
    }

    pub fn len(&self) -> (r: usize)
        ensures
            r == self.cards@.len(),
    {
        self.cards.len()
    }

    pub fn is_empty(&self) -> (r: bool)
        ensures
            r == (self.cards@.len() == 0),
    {
        self.cards.len() == 0
    }

    /// Puts `cards` on top, in order.
    pub fn add_cards(&mut self, cards: Vec<Card>)
        ensures
            final(self).cards@ == old(self).cards@ + cards@,
    {
        let mut cards = cards;
        self.cards.append(&mut cards);
    }

    /// Adds `new_cards` and shuffles the whole pile.
    pub fn shuffle_in(&mut self, new_cards: Vec<Card>)
        ensures
            final(self).cards@.to_multiset() == old(self).cards@.to_multiset().add(
                new_cards@.to_multiset(),
            ),
            final(self).cards@.len() == old(self).cards@.len() + new_cards@.len(),
    {
        let ghost before = self.cards@;
        self.add_cards(new_cards);
        proof {
            vstd::seq_lib::lemma_multiset_commutative(before, new_cards@);
        }
        self.shuffle();
        proof {
            broadcast use vstd::seq_lib::group_to_multiset_ensures;
            assert(self.cards@.len() == self.cards@.to_multiset().len());
        }
    }
}

impl Deck {
    /// Makes every card of the discard pile but its top card part of the draw
    /// pile, shuffled in with what the pile still holds. The top card stays;
    /// an empty discard pile has nothing to give.
    pub fn recycle(&mut self, discard: &mut Vec<Card>)
        ensures
            old(discard)@.len() == 0 ==> *final(discard) == *old(discard) && *final(self)
                == *old(self),
            old(discard)@.len() > 0 ==> final(discard)@ == seq![old(discard)@.last()]
                && final(self).cards@.to_multiset() == old(self).cards@.to_multiset().add(
                old(discard)@.drop_last().to_multiset(),
            ) && final(self).cards@.len() == old(self).cards@.len() + old(discard)@.len() - 1,
    {
        if discard.len() == 0 {
            return;
        }
        let top = discard.pop().unwrap();
        let mut rest: Vec<Card> = Vec::new();
        rest.append(discard);
        discard.push(top);
        assert(discard@ =~= seq![top]);
        self.shuffle_in(rest);
    }

    /// Draws `n` cards, topmost first. When the pile holds fewer than `n`, the
    /// discard pile is recycled first; when even that leaves fewer than `n`,
    /// nothing changes and `NoCardsLeft` comes back.
    pub fn draw_with_recycle(&mut self, discard: &mut Vec<Card>, n: usize) -> (r: Result<
        Vec<Card>,
        DrawCardError,
    >)
        ensures
            r is Err <==> old(self).cards@.len() + recyclable(old(discard)@) < n,
            r is Err ==> r == Err::<Vec<Card>, DrawCardError>(DrawCardError::NoCardsLeft)
                && *final(self) == *old(self) && *final(discard) == *old(discard),
            r is Ok && n <= old(self).cards@.len() ==> r.unwrap()@ == top_down(
                old(self).cards@,
                n as nat,
            ) && final(self).cards@ == old(self).cards@.subrange(0, old(self).cards@.len() - n)
                && final(discard)@ == old(discard)@,
            r is Ok && n > old(self).cards@.len() ==> r.unwrap()@.len() == n
                && final(discard)@ == seq![old(discard)@.last()]
                && final(self).cards@.len() == old(self).cards@.len() + old(discard)@.len() - 1
                - n && final(self).cards@.to_multiset().add(r.unwrap()@.to_multiset())
                == old(self).cards@.to_multiset().add(old(discard)@.drop_last().to_multiset()),
    {
        if self.cards.len() >= n {
            let drawn = self.draw_many(n).unwrap();
            return Ok(drawn);
        }
        if discard.len() == 0 || discard.len() - 1 < n - self.cards.len() {
            return Err(DrawCardError::NoCardsLeft);
        }
        self.recycle(discard);
        let ghost pile = self.cards@;
        let drawn = self.draw_many(n).unwrap();
        proof {
            broadcast use vstd::seq_lib::group_to_multiset_ensures;
            lemma_draw_keeps_cards(pile, n as nat);
        }
        Ok(drawn)
    }
}

impl Default for Deck {
    fn default() -> (d: Deck)
        ensures
            d.cards@.to_multiset() == full_deck().to_multiset(),
    {
        Deck::new()
    }
}

/// The 32 cards in id order.
fn ordered_cards() -> (v: Vec<Card>)
    ensures
        v@ == full_deck(),
{
    let mut v: Vec<Card> = Vec::new();
    let mut id: u8 = 0;
    while id < 32
        invariant
            id <= 32,
            v@ == full_deck().subrange(0, id as int),
        decreases 32 - id,
    {
        let c = Card::from_id(id).unwrap();
        v.push(c);
        id = id + 1;
        assert(v@ =~= full_deck().subrange(0, id as int));
    }
    assert(v@ =~= full_deck());
    v
}

} // verus!
