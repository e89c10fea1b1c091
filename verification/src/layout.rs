//! The table as sequences of slots, and what holds of it.
//!
//! In a column only the lowest card that is still there can be reached, that is
//! the one in the row with the largest number. An extra card is reached by its
//! own number.

use vstd::multiset::Multiset;
use vstd::prelude::*;
use crate::card::{Card, Rank};
use crate::deck::DECK_SIZE;

verus! {

/// Number of rows of the grid.
pub const ROWS: usize = 6;

/// Number of columns of the grid.
pub const COLUMNS: usize = 8;

/// Number of extra cards.
pub const EXTRAS: usize = 4;

/// What a `Board` holds, as sequences: `grid[row][col]` and `extra[e]`.
#[verifier::ext_equal]
pub struct Layout {
    pub grid: Seq<Seq<Option<Card>>>,
    pub extra: Seq<Option<Card>>,
}

impl Layout {
    /// The layout of the slots `grid[row][col]` and `extra[e]`.
    pub open spec fn of(grid: [[Option<Card>; 8]; 6], extra: [Option<Card>; 4]) -> Layout {
        Layout { grid: Seq::new(ROWS as nat, |row: int| grid[row]@), extra: extra@ }
    }

    /// The layout has the shape of a table: six rows of eight slots, four extra slots.
    pub open spec fn wf(self) -> bool {
        &&& self.grid.len() == ROWS
        &&& forall|row: int| 0 <= row < ROWS ==> (#[trigger] self.grid[row]).len() == COLUMNS
        &&& self.extra.len() == EXTRAS
    }

    /// No slot of column `col` holds a card.
    pub open spec fn column_is_empty(self, col: int) -> bool {
        forall|row: int| 0 <= row < ROWS ==> #[trigger] self.grid[row][col] is None
    }

    /// The slot at `row` holds the card of column `col` that can be reached:
    /// it holds a card, and every slot below it in the column is empty.
    pub open spec fn is_accessible(self, row: int, col: int) -> bool {
        &&& 0 <= row < ROWS
        &&& self.grid[row][col] is Some
        &&& forall|below: int| row < below < ROWS ==> #[trigger] self.grid[below][col] is None
    }

    /// The row of the card of column `col` that can be reached. It means
    /// nothing where the column is empty.
    pub open spec fn accessible_row(self, col: int) -> int {
        choose|row: int| self.is_accessible(row, col)
    }

    /// The card of column `col` that can be reached. It means nothing where
    /// the column is empty.
    pub open spec fn accessible_card(self, col: int) -> Card {
        self.grid[self.accessible_row(col)][col]->0
    }

    /// The extra slot `e` holds a card of rank `rank`.
    pub open spec fn extra_matches(self, e: int, rank: Rank) -> bool {
        self.extra[e] matches Some(card) && card.rank == rank
    }

    /// Some extra slot holds a card of rank `rank`.
    pub open spec fn has_match(self, rank: Rank) -> bool {
        exists|e: int| 0 <= e < EXTRAS && #[trigger] self.extra_matches(e, rank)
    }

    /// The extra slot `e` is the first that holds a card of rank `rank`.
    pub open spec fn is_first_match(self, e: int, rank: Rank) -> bool {
        &&& 0 <= e < EXTRAS
        &&& self.extra_matches(e, rank)
        &&& forall|before: int| 0 <= before < e ==> !#[trigger] self.extra_matches(before, rank)
    }

    /// The first extra slot that holds a card of rank `rank`. It means nothing
    /// where no extra card has that rank.
    pub open spec fn first_match(self, rank: Rank) -> int {
        choose|e: int| self.is_first_match(e, rank)
    }

    /// The layout with the grid slot at `row` and `col` emptied.
    pub open spec fn without_grid(self, row: int, col: int) -> Layout {
        Layout { grid: self.grid.update(row, self.grid[row].update(col, None)), extra: self.extra }
    }

    /// The layout with the extra slot `e` emptied.
    pub open spec fn without_extra(self, e: int) -> Layout {
        Layout { grid: self.grid, extra: self.extra.update(e, None) }
    }

    /// All the slots in one sequence: the grid row by row, then the extra slots.
    pub open spec fn slots(self) -> Seq<Option<Card>> {
        Seq::new(
            DECK_SIZE as nat,
            |i: int|
                if i < ROWS * COLUMNS {
                    self.grid[i / COLUMNS as int][i % COLUMNS as int]
                } else {
                    self.extra[i - ROWS * COLUMNS]
                },
        )
    }

    /// The cards on the table, each as often as it lies there.
    pub open spec fn cards(self) -> Multiset<Card> {
        cards_in(self.slots())
    }

    /// No slot holds a card, in the grid or beside it.
    pub open spec fn is_empty(self) -> bool {
        &&& forall|row: int, col: int|
            0 <= row < ROWS && 0 <= col < COLUMNS ==> #[trigger] self.grid[row][col] is None
        &&& forall|e: int| 0 <= e < EXTRAS ==> #[trigger] self.extra[e] is None
    }
}

impl Layout {
    /// A column has at most one card that can be reached, and none when it is empty.
    pub proof fn lemma_accessible_row(self, row: int, col: int)
        requires
            self.is_accessible(row, col),
        ensures
            self.accessible_row(col) == row,
            !self.column_is_empty(col),
    {
        let chosen = self.accessible_row(col);
        assert(self.is_accessible(chosen, col));
        if chosen < row {
            assert(self.grid[row][col] is None);
        } else if row < chosen {
            assert(self.grid[chosen][col] is None);
        }
    }

    /// A column that is not empty has a card that can be reached.
    pub proof fn lemma_accessible_exists(self, col: int)
        requires
            !self.column_is_empty(col),
        ensures
            self.is_accessible(self.accessible_row(col), col),
    {
        if self.grid[5][col] is Some {
            assert(self.is_accessible(5, col));
        } else if self.grid[4][col] is Some {
            assert(self.is_accessible(4, col));
        } else if self.grid[3][col] is Some {
            assert(self.is_accessible(3, col));
        } else if self.grid[2][col] is Some {
            assert(self.is_accessible(2, col));
        } else if self.grid[1][col] is Some {
            assert(self.is_accessible(1, col));
        } else {
            assert(self.is_accessible(0, col));
        }
    }

    /// Where some extra card has the rank, one of them is the first.
    pub proof fn lemma_first_match_exists(self, rank: Rank)
        requires
            self.has_match(rank),
        ensures
            self.is_first_match(self.first_match(rank), rank),
    {
        if self.extra_matches(0, rank) {
            assert(self.is_first_match(0, rank));
        } else if self.extra_matches(1, rank) {
            assert(self.is_first_match(1, rank));
        } else if self.extra_matches(2, rank) {
            assert(self.is_first_match(2, rank));
        } else {
            assert(self.is_first_match(3, rank));
        }
    }

    /// At most one extra slot is the first of a rank.
    pub proof fn lemma_first_match(self, e: int, rank: Rank)
        requires
            self.is_first_match(e, rank),
        ensures
            self.first_match(rank) == e,
            self.has_match(rank),
    {
        let chosen = self.first_match(rank);
        assert(self.is_first_match(chosen, rank));
        if chosen < e {
            assert(!self.extra_matches(chosen, rank));
        } else if e < chosen {
            assert(!self.extra_matches(e, rank));
        }
    }
}

/// The cards that the slots `slots` hold, each as often as it lies there.
pub open spec fn cards_in(slots: Seq<Option<Card>>) -> Multiset<Card>
    decreases slots.len(),
{
    if slots.len() == 0 {
        Multiset::empty()
    } else {
        let before = cards_in(slots.drop_last());
        match slots.last() {
            Some(card) => before.insert(card),
            None => before,
        }
    }
}

/// A card is among the cards of some slots as soon as one of them holds it,
/// and only then.
pub proof fn lemma_cards_in_count(slots: Seq<Option<Card>>, card: Card)
    ensures
        cards_in(slots).count(card) > 0 <==> slots.contains(Some(card)),
    decreases slots.len(),
{
    if slots.len() > 0 {
        let front = slots.drop_last();
        lemma_cards_in_count(front, card);
        if front.contains(Some(card)) {
            let i = choose|i: int| 0 <= i < front.len() && front[i] == Some(card);
            assert(slots[i] == Some(card));
        }
        if slots.contains(Some(card)) && slots.last() != Some(card) {
            let i = choose|i: int| 0 <= i < slots.len() && slots[i] == Some(card);
            assert(front[i] == Some(card));
        }
    }
}

/// Emptying a slot takes the card it held out of the cards, once.
pub proof fn lemma_cards_in_without(slots: Seq<Option<Card>>, i: int)
    requires
        0 <= i < slots.len(),
    ensures
        cards_in(slots.update(i, None)) == match slots[i] {
            Some(card) => cards_in(slots).remove(card),
            None => cards_in(slots),
        },
    decreases slots.len(),
{
    let emptied = slots.update(i, None);
    let front = slots.drop_last();
    if i == slots.len() - 1 {
        assert(emptied.drop_last() =~= front);
        match slots[i] {
            Some(card) => {
                assert(cards_in(front).insert(card).remove(card) =~= cards_in(front));
            },
            None => {},
        }
    } else {
        assert(emptied.drop_last() =~= front.update(i, None));
        lemma_cards_in_without(front, i);
        match slots[i] {
            Some(card) => {
                assert(front[i] == Some(card));
                lemma_cards_in_count(front, card);
                match slots.last() {
                    Some(last) => {
                        assert(cards_in(front).remove(card).insert(last) =~= cards_in(front).insert(
                            last,
                        ).remove(card));
                    },
                    None => {},
                }
            },
            None => {},
        }
    }
}

/// Slots that each hold a card hold the cards of the sequence they were
/// filled from.
pub proof fn lemma_cards_in_filled(cards: Seq<Card>)
    ensures
        cards_in(cards.map_values(|card: Card| Some(card))) == cards.to_multiset(),
    decreases cards.len(),
{
    let slots = cards.map_values(|card: Card| Some(card));
    if cards.len() == 0 {
        assert(cards.to_multiset() =~= Multiset::empty()) by {
            cards.to_multiset_ensures();
            assert(cards.to_multiset().len() == 0);
        }
    } else {
        let front = cards.drop_last();
        lemma_cards_in_filled(front);
        assert(slots.drop_last() =~= front.map_values(|card: Card| Some(card)));
        assert(cards =~= front.push(cards.last()));
        front.to_multiset_ensures();
    }
}

impl Layout {
    /// Emptying a grid slot takes the card it held from the cards of the
    /// table, and no other.
    pub proof fn lemma_cards_without_grid(self, row: int, col: int)
        requires
            self.wf(),
            0 <= row < ROWS,
            0 <= col < COLUMNS,
        ensures
            self.without_grid(row, col).cards() == match self.grid[row][col] {
                Some(card) => self.cards().remove(card),
                None => self.cards(),
            },
    {
        let i = row * COLUMNS + col;
        assert(self.without_grid(row, col).slots() =~= self.slots().update(i, None));
        lemma_cards_in_without(self.slots(), i);
    }

    /// Emptying an extra slot takes the card it held from the cards of the
    /// table, and no other.
    pub proof fn lemma_cards_without_extra(self, e: int)
        requires
            self.wf(),
            0 <= e < EXTRAS,
        ensures
            self.without_extra(e).cards() == match self.extra[e] {
                Some(card) => self.cards().remove(card),
                None => self.cards(),
            },
    {
        let i = ROWS * COLUMNS + e;
        assert(self.without_extra(e).slots() =~= self.slots().update(i, None));
        lemma_cards_in_without(self.slots(), i);
    }

    /// The table is empty exactly when it holds no card.
    pub proof fn lemma_empty_holds_nothing(self)
        requires
            self.wf(),
        ensures
            self.is_empty() <==> self.cards() == Multiset::<Card>::empty(),
    {
        let slots = self.slots();
        if self.is_empty() {
            assert forall|card: Card| self.cards().count(card) == 0 by {
                lemma_cards_in_count(slots, card);
                if slots.contains(Some(card)) {
                    let i = choose|i: int| 0 <= i < slots.len() && slots[i] == Some(card);
                    if i < ROWS * COLUMNS {
                        assert(self.grid[i / COLUMNS as int][i % COLUMNS as int] is None);
                    } else {
                        assert(self.extra[i - ROWS * COLUMNS] is None);
                    }
                }
            }
            assert(self.cards() =~= Multiset::<Card>::empty());
        } else {
            if exists|row: int, col: int|
                0 <= row < ROWS && 0 <= col < COLUMNS && self.grid[row][col] is Some {
                let (row, col) = choose|row: int, col: int|
                    0 <= row < ROWS && 0 <= col < COLUMNS && self.grid[row][col] is Some;
                let card = self.grid[row][col]->0;
                assert(slots[row * COLUMNS + col] == Some(card));
                lemma_cards_in_count(slots, card);
            } else {
                let e = choose|e: int| 0 <= e < EXTRAS && self.extra[e] is Some;
                let card = self.extra[e]->0;
                assert(slots[ROWS * COLUMNS + e] == Some(card));
                lemma_cards_in_count(slots, card);
            }
        }
    }
}

} // verus!
