//! Cards and slots as text.
//!
//! A card is written as two characters, its rank and then its suit, and an
//! empty slot as `None`. No two slots that differ are written alike.

use vstd::prelude::*;
use crate::board::Board;
use crate::layout::{Layout, COLUMNS, EXTRAS, ROWS};
use crate::card::{Card, Rank, Suit};

verus! {

/// The character that stands for a rank. `Z` stands for the ten.
pub open spec fn rank_char(rank: Rank) -> char {
    match rank {
        Rank::Two => '2',
        Rank::Three => '3',
        Rank::Four => '4',
        Rank::Five => '5',
        Rank::Six => '6',
        Rank::Seven => '7',
        Rank::Eight => '8',
        Rank::Nine => '9',
        Rank::Ten => 'Z',
        Rank::Jack => 'J',
        Rank::Queen => 'Q',
        Rank::King => 'K',
        Rank::Ace => 'A',
    }
}

/// The character that stands for a suit.
pub open spec fn suit_char(suit: Suit) -> char {
    match suit {
        Suit::Hearts => 'C',
        Suit::Diamonds => 'D',
        Suit::Clubs => 'T',
        Suit::Spades => 'E',
    }
}

/// The text of a card: its rank, then its suit.
pub open spec fn card_chars(card: Card) -> Seq<char> {
    seq![rank_char(card.rank), suit_char(card.suit)]
}

/// The text of a slot: that of its card, or `None`.
pub open spec fn slot_chars(slot: Option<Card>) -> Seq<char> {
    match slot {
        Some(card) => card_chars(card),
        None => seq!['N', 'o', 'n', 'e'],
    }
}

/// The text of the first `columns` slots of a row of the grid: each slot is
/// followed by a space.
pub open spec fn row_chars(layout: Layout, row: int, columns: int) -> Seq<char>
    decreases columns,
{
    if columns <= 0 {
        Seq::empty()
    } else {
        row_chars(layout, row, columns - 1) + slot_chars(layout.grid[row][columns - 1]) + seq![' ']
    }
}

/// The digit that numbers the extra slot `e` for the player, who counts from one.
pub open spec fn extra_digit(e: int) -> char {
    if e == 0 {
        '1'
    } else if e == 1 {
        '2'
    } else if e == 2 {
        '3'
    } else {
        '4'
    }
}

/// The text of the extra slot `e`: its number, a colon, and the slot.
pub open spec fn extra_chars(layout: Layout, e: int) -> Seq<char> {
    seq![extra_digit(e), ':', ' '] + slot_chars(layout.extra[e])
}

/// Slots that are written alike are alike: the text tells every card from
/// every other, and a card from an empty slot.
pub proof fn lemma_slot_text_tells_slots_apart(a: Option<Card>, b: Option<Card>)
    requires
        slot_chars(a) == slot_chars(b),
    ensures
        a == b,
{
    let ta = slot_chars(a);
    let tb = slot_chars(b);
    assert(ta.len() == tb.len());
    match (a, b) {
        (Some(x), Some(y)) => {
            assert(ta[0] == tb[0]);
            assert(ta[1] == tb[1]);
        },
        _ => {},
    }
}

/// The text of a rank, one character long.
pub fn rank_text(rank: Rank) -> (text: &'static str)
    ensures
        text@ == seq![rank_char(rank)],
{
    proof {
        reveal_strlit("2");
        reveal_strlit("3");
        reveal_strlit("4");
        reveal_strlit("5");
        reveal_strlit("6");
        reveal_strlit("7");
        reveal_strlit("8");
        reveal_strlit("9");
        reveal_strlit("Z");
        reveal_strlit("J");
        reveal_strlit("Q");
        reveal_strlit("K");
        reveal_strlit("A");
    }
    let text = match rank {
        Rank::Two => "2",
        Rank::Three => "3",
        Rank::Four => "4",
        Rank::Five => "5",
        Rank::Six => "6",
        Rank::Seven => "7",
        Rank::Eight => "8",
        Rank::Nine => "9",
        Rank::Ten => "Z",
        Rank::Jack => "J",
        Rank::Queen => "Q",
        Rank::King => "K",
        Rank::Ace => "A",
    };
    assert(text@ =~= seq![rank_char(rank)]);
    text
}

/// The text of a suit, one character long.
pub fn suit_text(suit: Suit) -> (text: &'static str)
    ensures
        text@ == seq![suit_char(suit)],
{
    proof {
        reveal_strlit("C");
        reveal_strlit("D");
        reveal_strlit("T");
        reveal_strlit("E");
    }
    let text = match suit {
        Suit::Hearts => "C",
        Suit::Diamonds => "D",
        Suit::Clubs => "T",
        Suit::Spades => "E",
    };
    assert(text@ =~= seq![suit_char(suit)]);
    text
}

impl Card {
    /// The card as text: its rank, then its suit.
    pub fn label(&self) -> (text: String)
        ensures
            text@ == card_chars(*self),
    {
        let mut text = String::new();
        text.append(rank_text(self.rank));
        text.append(suit_text(self.suit));
        assert(text@ =~= card_chars(*self));
        text
    }
}

/// A slot as text: the label of its card, or `None` when it is empty.
pub fn slot_text(slot: Option<Card>) -> (text: String)
    ensures
        text@ == slot_chars(slot),
{
    match slot {
        Some(card) => card.label(),
        None => {
            proof {
                reveal_strlit("None");
            }
            let text = String::from_str("None");
            assert(text@ =~= slot_chars(slot));
            text
        },
    }
}

/// A row of the grid as text: its eight slots from left to right, each
/// followed by a space.
pub fn grid_row_text(board: &Board, row: usize) -> (text: String)
    requires
        row < ROWS,
    ensures
        text@ == row_chars(board@, row as int, COLUMNS as int),
{
    let mut text = String::new();
    let mut col: usize = 0;
    assert(text@ =~= row_chars(board@, row as int, 0));
    while col < COLUMNS
        invariant
            row < ROWS,
            col <= COLUMNS,
            text@ == row_chars(board@, row as int, col as int),
        decreases COLUMNS - col,
    {
        let slot = slot_text(board.card_at(row, col));
        text.append(slot.as_str());
        proof {
            reveal_strlit(" ");
        }
        text.append(" ");
        col = col + 1;
        assert(text@ =~= row_chars(board@, row as int, col as int));
    }
    text
}

/// An extra slot as text: its number as the player counts, a colon, a space,
/// and the slot.
pub fn extra_text(board: &Board, e: usize) -> (text: String)
    requires
        e < EXTRAS,
    ensures
        text@ == extra_chars(board@, e as int),
{
    proof {
        reveal_strlit("1");
        reveal_strlit("2");
        reveal_strlit("3");
        reveal_strlit("4");
        reveal_strlit(": ");
    }
    let number = if e == 0 {
        "1"
    } else if e == 1 {
        "2"
    } else if e == 2 {
        "3"
    } else {
        "4"
    };
    let mut text = String::from_str(number);
    text.append(": ");
    let slot = slot_text(board.extra_at(e));
    text.append(slot.as_str());
    assert(text@ =~= extra_chars(board@, e as int));
    text
}

} // verus!
