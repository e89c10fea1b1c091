//! The table: six rows of eight columns, and four extra cards beside them.

use vstd::prelude::*;
use crate::card::{Card, Rank};
use crate::deck::{Deck, DECK_SIZE};
use crate::layout::{lemma_cards_in_filled, Layout, COLUMNS, EXTRAS, ROWS};

verus! {

/// The cards on the table. A slot holds one card or nothing.
#[derive(Clone, Copy, Debug, PartialEq, Eq)]
pub struct Board {
    grid: [[Option<Card>; 8]; 6],
    extra: [Option<Card>; 4],
}

impl View for Board {
    type V = Layout;

    closed spec fn view(&self) -> Layout {
        Layout::of(self.grid, self.extra)
    }
}

impl Board {
    /// A board always has the shape of a table.
    pub proof fn lemma_shape(self)
        ensures
            self@.wf(),
    {
    }

    /// Two boards with the same layout are the same board.
    pub proof fn lemma_layout_determines_board(self, other: Board)
        requires
            self@ == other@,
        ensures
            self == other,
    {
        assert(self.extra =~= other.extra);
        assert forall|row: int| 0 <= row < ROWS implies self.grid[row] == other.grid[row] by {
            assert(self@.grid[row] == other@.grid[row]);
            assert(self.grid[row] =~= other.grid[row]);
        }
        assert(self.grid =~= other.grid);
    }

    /// The board that holds `grid[row][col]` in the grid and `extra[e]` beside it.
    pub fn new(grid: [[Option<Card>; 8]; 6], extra: [Option<Card>; 4]) -> (board: Board)
        ensures
            board@ == Layout::of(grid, extra),
    {
        Board { grid, extra }
    }

    /// Deals `deck`: its first forty-eight cards fill the grid row by row,
    /// and the four that are left become the extra cards. The table then
    /// holds every card of the deck exactly once.
    pub fn deal(deck: &Deck) -> (board: Board)
        ensures
            forall|row: int, col: int|
                0 <= row < ROWS && 0 <= col < COLUMNS ==> #[trigger] board@.grid[row][col] == Some(
                    deck@[row * COLUMNS + col],
                ),
            forall|e: int|
                0 <= e < EXTRAS ==> #[trigger] board@.extra[e] == Some(deck@[ROWS * COLUMNS + e]),
            board@.slots() == deck@.map_values(|card: Card| Some(card)),
            board@.cards() == deck@.to_multiset(),
            forall|card: Card| #[trigger] board@.cards().count(card) == 1,
            board@.cards().len() == DECK_SIZE,
    {
        let cards = deck.cards();
        let mut grid: [[Option<Card>; 8]; 6] = [[None; 8]; 6];
        let mut extra: [Option<Card>; 4] = [None; 4];
        let mut i: usize = 0;
        while i < DECK_SIZE
            invariant
                i <= DECK_SIZE,
                cards@.len() == DECK_SIZE,
                forall|k: int|
                    0 <= k < i ==> #[trigger] Layout::of(grid, extra).slots()[k] == Some(cards@[k]),
            decreases DECK_SIZE - i,
        {
            let card = cards[i];
            let ghost before = Layout::of(grid, extra);
            if i < ROWS * COLUMNS {
                grid[i / COLUMNS][i % COLUMNS] = Some(card);
            } else {
                extra[i - ROWS * COLUMNS] = Some(card);
            }
            proof {
                let after = Layout::of(grid, extra);
                assert forall|k: int| 0 <= k < i + 1 implies #[trigger] after.slots()[k] == Some(
                    cards@[k],
                ) by {
                    if k < i {
                        assert(before.slots()[k] == Some(cards@[k]));
                    }
                }
            }
            i = i + 1;
        }
        let board = Board { grid, extra };
        proof {
            assert(board@.slots() =~= deck@.map_values(|card: Card| Some(card)));
            assert forall|row: int, col: int| 0 <= row < ROWS && 0 <= col < COLUMNS implies
                #[trigger] board@.grid[row][col] == Some(deck@[row * COLUMNS + col]) by {
                assert(board@.slots()[row * COLUMNS + col] == board@.grid[row][col]);
            }
            assert forall|e: int| 0 <= e < EXTRAS implies #[trigger] board@.extra[e] == Some(
                deck@[ROWS * COLUMNS + e],
            ) by {
                assert(board@.slots()[ROWS * COLUMNS + e] == board@.extra[e]);
            }
            lemma_cards_in_filled(deck@);
            deck@.to_multiset_ensures();
        }
        board
    }

    /// The slot of the grid at `row` and `col`.
    pub fn card_at(&self, row: usize, col: usize) -> (slot: Option<Card>)
        requires
            row < ROWS,
            col < COLUMNS,
        ensures
            slot == self@.grid[row as int][col as int],
    {
        self.grid[row][col]
    }

    /// The extra slot `e`.
    pub fn extra_at(&self, e: usize) -> (slot: Option<Card>)
        requires
            e < EXTRAS,
        ensures
            slot == self@.extra[e as int],
    {
        self.extra[e]
    }

    /// The card of column `col` that can be reached, with its row: the lowest
    /// card still in the column. `None` when the column is empty.
    pub fn top_of_column(&self, col: usize) -> (top: Option<(Card, usize)>)
        requires
            col < COLUMNS,
        ensures
            match top {
                Some((card, row)) => self@.is_accessible(row as int, col as int)
                    && self@.grid[row as int][col as int] == Some(card),
                None => self@.column_is_empty(col as int),
            },
    {
        let mut row: usize = ROWS;
        while row > 0
            invariant
                row <= ROWS,
                col < COLUMNS,
                forall|below: int|
                    row <= below < ROWS ==> #[trigger] self@.grid[below][col as int] is None,
            decreases row,
        {
            row = row - 1;
            if let Some(card) = self.grid[row][col] {
                return Some((card, row));
            }
        }
        None
    }

    /// The first extra slot that holds a card of rank `rank`, counted from
    /// zero. `None` when no extra card has that rank.
    pub fn find_extra(&self, rank: Rank) -> (found: Option<usize>)
        ensures
            match found {
                Some(e) => self@.is_first_match(e as int, rank),
                None => !self@.has_match(rank),
            },
    {
        let mut e: usize = 0;
        while e < EXTRAS
            invariant
                e <= EXTRAS,
                forall|before: int|
                    0 <= before < e ==> !#[trigger] self@.extra_matches(before, rank),
            decreases EXTRAS - e,
        {
            if let Some(card) = self.extra[e] {
                if card.rank == rank {
                    return Some(e);
                }
            }
            e = e + 1;
        }
        None
    }

    /// Empties the grid slot at `row` and `col`. Every other slot stays as it is.
    pub fn remove_at_grid(&mut self, row: usize, col: usize)
        requires
            row < ROWS,
            col < COLUMNS,
        ensures
            final(self)@ == old(self)@.without_grid(row as int, col as int),
            final(self)@.cards() == match old(self)@.grid[row as int][col as int] {
                Some(card) => old(self)@.cards().remove(card),
                None => old(self)@.cards(),
            },
    {
        self.grid[row][col] = None;
        proof {
            assert(self@ =~~= old(self)@.without_grid(row as int, col as int));
            old(self)@.lemma_cards_without_grid(row as int, col as int);
        }
    }

    /// Empties the extra slot `e`. Every other slot stays as it is.
    pub fn remove_extra(&mut self, e: usize)
        requires
            e < EXTRAS,
        ensures
            final(self)@ == old(self)@.without_extra(e as int),
            final(self)@.cards() == match old(self)@.extra[e as int] {
                Some(card) => old(self)@.cards().remove(card),
                None => old(self)@.cards(),
            },
    {
        self.extra[e] = None;
        proof {
            assert(self@ =~~= old(self)@.without_extra(e as int));
            old(self)@.lemma_cards_without_extra(e as int);
        }
    }

    /// Tells whether no card is left on the table.
    pub fn is_empty(&self) -> (empty: bool)
        ensures
            empty == self@.is_empty(),
    {
        let mut row: usize = 0;
        while row < ROWS
            invariant
                row <= ROWS,
                forall|r: int, c: int|
                    0 <= r < row && 0 <= c < COLUMNS ==> #[trigger] self@.grid[r][c] is None,
            decreases ROWS - row,
        {
            let mut col: usize = 0;
            while col < COLUMNS
                invariant
                    row < ROWS,
                    col <= COLUMNS,
                    forall|r: int, c: int|
                        0 <= r < row && 0 <= c < COLUMNS ==> #[trigger] self@.grid[r][c] is None,
                    forall|c: int| 0 <= c < col ==> #[trigger] self@.grid[row as int][c] is None,
                decreases COLUMNS - col,
            {
                if self.grid[row][col].is_some() {
                    return false;
                }
                col = col + 1;
            }
            row = row + 1;
        }
        let mut e: usize = 0;
        while e < EXTRAS
            invariant
                e <= EXTRAS,
                forall|r: int, c: int|
                    0 <= r < ROWS && 0 <= c < COLUMNS ==> #[trigger] self@.grid[r][c] is None,
                forall|i: int| 0 <= i < e ==> #[trigger] self@.extra[i] is None,
            decreases EXTRAS - e,
        {
            if self.extra[e].is_some() {
                return false;
            }
            e = e + 1;
        }
        true
    }
}

} // verus!
