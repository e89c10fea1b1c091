//! The deck of fifty-two cards, fresh and shuffled.

use vstd::prelude::*;
use rand::rngs::ThreadRng;
use rand::seq::SliceRandom;
use crate::card::{Card, Rank, Suit};

verus! {

/// Number of cards of a deck.
pub const DECK_SIZE: usize = 52;

/// The card at place `i` of a fresh deck: the suits follow one another, and
/// within a suit the ranks go from `Two` up to `Ace`.
pub open spec fn fresh_card(i: int) -> Card {
    Card { rank: Rank::nth(i % 13), suit: Suit::nth(i / 13) }
}

/// The cards of a fresh deck, in order.
pub open spec fn fresh_deck() -> Seq<Card> {
    Seq::new(DECK_SIZE as nat, |i: int| fresh_card(i))
}

/// The place of `card` in a fresh deck.
pub open spec fn fresh_place(card: Card) -> int {
    card.suit.ordinal() * 13 + card.rank.ordinal()
}

/// `cards` holds every card of the deck, each exactly once.
pub open spec fn is_complete(cards: Seq<Card>) -> bool {
    forall|card: Card| #[trigger] cards.to_multiset().count(card) == 1
}

/// A fresh deck holds every card exactly once.
pub proof fn lemma_fresh_deck_is_complete()
    ensures
        is_complete(fresh_deck()),
{
    let deck = fresh_deck();
    assert forall|i: int, j: int|
        0 <= i < deck.len() && 0 <= j < deck.len() && i != j implies deck[i] != deck[j] by {
        assert(deck[i].rank.ordinal() == i % 13);
        assert(deck[j].rank.ordinal() == j % 13);
        assert(deck[i].suit.ordinal() == i / 13);
        assert(deck[j].suit.ordinal() == j / 13);
    }
    assert(deck.no_duplicates());
    deck.lemma_multiset_has_no_duplicates();
    assert forall|card: Card| #[trigger] deck.to_multiset().count(card) == 1 by {
        let place = fresh_place(card);
        assert(0 <= place < 52);
        assert(deck[place] == card);
        assert(deck.contains(card));
        deck.to_multiset_ensures();
    }
}

/// A sequence that holds every card exactly once is a fresh deck in some
/// order, and so has fifty-two cards.
pub proof fn lemma_complete_is_permutation(cards: Seq<Card>)
    requires
        is_complete(cards),
    ensures
        cards.to_multiset() == fresh_deck().to_multiset(),
        cards.len() == DECK_SIZE,
{
    lemma_fresh_deck_is_complete();
    assert(cards.to_multiset() =~= fresh_deck().to_multiset());
    cards.to_multiset_ensures();
    fresh_deck().to_multiset_ensures();
}

/// `rand::rngs::ThreadRng`, the handle of a thread's generator of random
/// numbers. Nothing of what it holds is seen here.
#[verifier::external_type_specification]
#[verifier::external_body]
pub struct ExThreadRng(ThreadRng);

/// `rand::thread_rng` hands out the generator of the running thread, which
/// the system seeds. Nothing is claimed of the numbers it will give. It
/// panics where the system cannot seed it.
pub assume_specification[ rand::thread_rng ]() -> (rng: ThreadRng);

/// `rand::seq::SliceRandom::shuffle` on the cards, with the numbers of `rng`.
/// It only swaps elements of the slice, so the cards afterwards are the cards
/// before in some order. Which order is not said.
#[verifier::external_body]
fn shuffle_cards(cards: &mut Vec<Card>, rng: &mut ThreadRng)
    ensures
        final(cards)@.to_multiset() == old(cards)@.to_multiset(),
{
    cards.shuffle(rng);
}

/// A deck: every card exactly once, in some order.
#[derive(Debug)]
pub struct Deck {
    cards: Vec<Card>,
}

impl View for Deck {
    type V = Seq<Card>;

    closed spec fn view(&self) -> Seq<Card> {
        self.cards@
    }
}

impl Deck {
    #[verifier::type_invariant]
    spec fn complete(self) -> bool {
        is_complete(self.cards@)
    }

    /// A fresh deck, its cards in order.
    pub fn new() -> (deck: Deck)
        ensures
            deck@ == fresh_deck(),
            is_complete(deck@),
    {
        let suits = [Suit::Hearts, Suit::Diamonds, Suit::Clubs, Suit::Spades];
        let ranks = [
            Rank::Two,
            Rank::Three,
            Rank::Four,
            Rank::Five,
            Rank::Six,
            Rank::Seven,
            Rank::Eight,
            Rank::Nine,
            Rank::Ten,
            Rank::Jack,
            Rank::Queen,
            Rank::King,
            Rank::Ace,
        ];
        let mut cards: Vec<Card> = Vec::with_capacity(DECK_SIZE);
        let mut s: usize = 0;
        while s < 4
            invariant
                s <= 4,
                cards@.len() == s * 13,
                forall|i: int| 0 <= i < cards@.len() ==> cards@[i] == fresh_card(i),
                forall|i: int| 0 <= i < 4 ==> suits[i] == Suit::nth(i),
                forall|i: int| 0 <= i < 13 ==> ranks[i] == Rank::nth(i),
            decreases 4 - s,
        {
            let mut r: usize = 0;
            while r < 13
                invariant
                    s < 4,
                    r <= 13,
                    cards@.len() == s * 13 + r,
                    forall|i: int| 0 <= i < cards@.len() ==> cards@[i] == fresh_card(i),
                    forall|i: int| 0 <= i < 4 ==> suits[i] == Suit::nth(i),
                    forall|i: int| 0 <= i < 13 ==> ranks[i] == Rank::nth(i),
                decreases 13 - r,
            {
                cards.push(Card::new(ranks[r], suits[s]));
                r = r + 1;
            }
            s = s + 1;
        }
        proof {
            assert(cards@ =~= fresh_deck());
            lemma_fresh_deck_is_complete();
        }
        Deck { cards }
    }

    /// Puts the cards in a random order. No card is lost and none is added.
    pub fn shuffle(&mut self)
        ensures
            final(self)@.to_multiset() == old(self)@.to_multiset(),
            is_complete(final(self)@),
    {
        proof {
            use_type_invariant(&*self);
        }
        let mut rng = rand::thread_rng();
        // The shuffle works on a copy, so that the deck is complete at every moment.
        let mut cards = self.cards.clone();
        assert(cards@ =~= self.cards@);
        shuffle_cards(&mut cards, &mut rng);
        self.cards = cards;
    }

    /// The cards, in their order.
    pub fn cards(&self) -> (cards: &Vec<Card>)
        ensures
            cards@ == self@,
            is_complete(self@),
            cards@.len() == DECK_SIZE,
    {
        proof {
            use_type_invariant(self);
            lemma_complete_is_permutation(self.cards@);
        }
        &self.cards
    }
}

} // verus!
