//! One turn: two selections, and what becomes of the table.
//!
//! A selection is a number. The numbers below `WILDCARD` name the columns of
//! the grid, and stand for the card of that column that can be reached.
//! `WILDCARD` itself names no slot: it stands for whichever extra card matches
//! the card on the other side, the first one where several do.

use vstd::prelude::*;
use crate::board::Board;
use crate::layout::{lemma_cards_in_count, Layout, COLUMNS, EXTRAS, ROWS};
use crate::card::Card;

verus! {

/// The selection that stands for the extra cards.
pub const WILDCARD: usize = 8;

/// One of the two selections of a turn.
#[derive(Clone, Copy, Debug, PartialEq, Eq, Structural)]
pub enum Side {
    First,
    Second,
}

/// How a turn ended.
#[derive(Clone, Copy, Debug, PartialEq, Eq, Structural)]
pub enum TurnOutcome {
    /// The two cards had the same rank and left the table.
    Match,
    /// Both selections reached a card, and the ranks differ; or no extra card
    /// has the rank asked for.
    NoMatch,
    /// A selection is out of range, or both selections are the same.
    InvalidPosition,
    /// The column selected on this side holds no card. Where both columns are
    /// empty, the side is the first.
    EmptyPosition(Side),
}

/// The two selections can be played: each is a column or the wildcard, and
/// they differ.
pub open spec fn is_valid_pair(sel1: int, sel2: int) -> bool {
    &&& 0 <= sel1 <= WILDCARD
    &&& 0 <= sel2 <= WILDCARD
    &&& sel1 != sel2
}

/// How the turn with the selections `sel1` and `sel2` ends on `layout`.
pub open spec fn turn_outcome(layout: Layout, sel1: int, sel2: int) -> TurnOutcome {
    if !is_valid_pair(sel1, sel2) {
        TurnOutcome::InvalidPosition
    } else if sel1 < WILDCARD && layout.column_is_empty(sel1) {
        TurnOutcome::EmptyPosition(Side::First)
    } else if sel2 < WILDCARD && layout.column_is_empty(sel2) {
        TurnOutcome::EmptyPosition(Side::Second)
    } else if sel1 == WILDCARD {
        if layout.has_match(layout.accessible_card(sel2).rank) {
            TurnOutcome::Match
        } else {
            TurnOutcome::NoMatch
        }
    } else if sel2 == WILDCARD {
        if layout.has_match(layout.accessible_card(sel1).rank) {
            TurnOutcome::Match
        } else {
            TurnOutcome::NoMatch
        }
    } else if layout.accessible_card(sel1).matches(layout.accessible_card(sel2)) {
        TurnOutcome::Match
    } else {
        TurnOutcome::NoMatch
    }
}

/// The layout with the card of column `col` emptied that the first extra
/// card of its rank matches, and that extra card emptied too.
pub open spec fn without_wildcard_pair(layout: Layout, col: int) -> Layout {
    layout.without_extra(layout.first_match(layout.accessible_card(col).rank)).without_grid(
        layout.accessible_row(col),
        col,
    )
}

/// The layout after the turn with the selections `sel1` and `sel2`: on a
/// match the two cards are gone, and otherwise nothing has changed.
pub open spec fn after_turn(layout: Layout, sel1: int, sel2: int) -> Layout {
    if turn_outcome(layout, sel1, sel2) != TurnOutcome::Match {
        layout
    } else if sel1 == WILDCARD {
        without_wildcard_pair(layout, sel2)
    } else if sel2 == WILDCARD {
        without_wildcard_pair(layout, sel1)
    } else {
        layout.without_grid(layout.accessible_row(sel1), sel1).without_grid(
            layout.accessible_row(sel2),
            sel2,
        )
    }
}

/// Matches the card `card`, which column `col` shows at `row`, against the
/// extra cards: the first extra card of its rank leaves the table with it.
fn match_with_extra(board: &mut Board, card: Card, row: usize, col: usize) -> (outcome: TurnOutcome)
    requires
        col < WILDCARD,
        old(board)@.is_accessible(row as int, col as int),
        old(board)@.grid[row as int][col as int] == Some(card),
    ensures
        outcome == (if old(board)@.has_match(card.rank) {
            TurnOutcome::Match
        } else {
            TurnOutcome::NoMatch
        }),
        final(board)@ == (if old(board)@.has_match(card.rank) {
            without_wildcard_pair(old(board)@, col as int)
        } else {
            old(board)@
        }),
{
    proof {
        board@.lemma_accessible_row(row as int, col as int);
    }
    match board.find_extra(card.rank) {
        Some(e) => {
            proof {
                board@.lemma_first_match(e as int, card.rank);
            }
            board.remove_extra(e);
            board.remove_at_grid(row, col);
            TurnOutcome::Match
        },
        None => TurnOutcome::NoMatch,
    }
}

/// Plays one turn on `board` with the selections `sel1` and `sel2`.
///
/// Selections are counted from zero. Both must be at most `WILDCARD` and they
/// must differ, or the turn is refused as `InvalidPosition`. A selected column
/// that holds no card ends the turn as `EmptyPosition`. Otherwise the cards
/// are compared by rank: two columns match when their reachable cards have the
/// same rank, and a column matches the wildcard when some extra card has the
/// rank of its reachable card. On a match the two cards leave the table; in
/// every other case the table stays as it was.
pub fn resolve_turn(board: &mut Board, sel1: usize, sel2: usize) -> (outcome: TurnOutcome)
    ensures
        outcome == turn_outcome(old(board)@, sel1 as int, sel2 as int),
        final(board)@ == after_turn(old(board)@, sel1 as int, sel2 as int),
        outcome != TurnOutcome::Match ==> *final(board) == *old(board),
        final(board)@.cards().subset_of(old(board)@.cards()),
{
    proof {
        board.lemma_shape();
        lemma_turn_only_takes_cards(board@, sel1 as int, sel2 as int);
        if turn_outcome(board@, sel1 as int, sel2 as int) != TurnOutcome::Match {
            assert forall|after: Board|
                (#[trigger] after@) == after_turn(board@, sel1 as int, sel2 as int) implies after
                == *board by {
                after.lemma_layout_determines_board(*board);
            }
        }
    }
    if sel1 > WILDCARD || sel2 > WILDCARD || sel1 == sel2 {
        return TurnOutcome::InvalidPosition;
    }
    if sel1 == WILDCARD {
        return match board.top_of_column(sel2) {
            None => TurnOutcome::EmptyPosition(Side::Second),
            Some((card2, row2)) => match_with_extra(board, card2, row2, sel2),
        };
    }
    let (card1, row1) = match board.top_of_column(sel1) {
        None => {
            return TurnOutcome::EmptyPosition(Side::First);
        },
        Some(top) => top,
    };
    proof {
        board@.lemma_accessible_row(row1 as int, sel1 as int);
    }
    if sel2 == WILDCARD {
        return match_with_extra(board, card1, row1, sel1);
    }
    match board.top_of_column(sel2) {
        None => TurnOutcome::EmptyPosition(Side::Second),
        Some((card2, row2)) => {
            proof {
                board@.lemma_accessible_row(row2 as int, sel2 as int);
            }
            if card1.same_rank(&card2) {
                board.remove_at_grid(row1, sel1);
                board.remove_at_grid(row2, sel2);
                TurnOutcome::Match
            } else {
                TurnOutcome::NoMatch
            }
        },
    }
}

/// The layout after the same turn has been played `times` times in a row.
pub open spec fn after_turns(layout: Layout, sel1: int, sel2: int, times: nat) -> Layout
    decreases times,
{
    if times == 0 {
        layout
    } else {
        after_turn(after_turns(layout, sel1, sel2, (times - 1) as nat), sel1, sel2)
    }
}

/// A match of two columns empties two slots of the grid, those of the two
/// cards that could be reached, and every other slot stays as it was. The
/// two cards, of one rank, are what the table has lost.
pub proof fn lemma_column_match_empties_two_slots(layout: Layout, sel1: int, sel2: int)
    requires
        layout.wf(),
        0 <= sel1 < WILDCARD,
        0 <= sel2 < WILDCARD,
        turn_outcome(layout, sel1, sel2) == TurnOutcome::Match,
    ensures
        ({
            let after = after_turn(layout, sel1, sel2);
            let row1 = layout.accessible_row(sel1);
            let row2 = layout.accessible_row(sel2);
            let card1 = layout.accessible_card(sel1);
            let card2 = layout.accessible_card(sel2);
            &&& after.wf()
            &&& sel1 != sel2
            &&& layout.is_accessible(row1, sel1)
            &&& layout.is_accessible(row2, sel2)
            &&& card1.rank == card2.rank
            &&& after.grid[row1][sel1] is None
            &&& after.grid[row2][sel2] is None
            &&& forall|row: int, col: int|
                0 <= row < ROWS && 0 <= col < COLUMNS && !(row == row1 && col == sel1) && !(row
                    == row2 && col == sel2) ==> #[trigger] after.grid[row][col]
                    == layout.grid[row][col]
            &&& after.extra == layout.extra
            &&& after.cards() == layout.cards().remove(card1).remove(card2)
        }),
{
    let row1 = layout.accessible_row(sel1);
    let row2 = layout.accessible_row(sel2);
    layout.lemma_accessible_exists(sel1);
    layout.lemma_accessible_exists(sel2);
    let between = layout.without_grid(row1, sel1);
    layout.lemma_cards_without_grid(row1, sel1);
    between.lemma_cards_without_grid(row2, sel2);
}

/// A match of a column with the wildcard empties one slot of the grid, that
/// of the card that could be reached, and one extra slot: the first whose
/// card has the rank of that card. Every other slot stays as it was. The
/// two cards, of one rank, are what the table has lost.
pub proof fn lemma_wildcard_match_empties_one_of_each(layout: Layout, sel1: int, sel2: int)
    requires
        layout.wf(),
        (sel1 == WILDCARD && 0 <= sel2 < WILDCARD) || (sel2 == WILDCARD && 0 <= sel1 < WILDCARD),
        turn_outcome(layout, sel1, sel2) == TurnOutcome::Match,
    ensures
        ({
            let after = after_turn(layout, sel1, sel2);
            let col = if sel1 == WILDCARD {
                sel2
            } else {
                sel1
            };
            let row = layout.accessible_row(col);
            let card = layout.accessible_card(col);
            let e = layout.first_match(card.rank);
            &&& after.wf()
            &&& layout.is_accessible(row, col)
            &&& layout.is_first_match(e, card.rank)
            &&& after.grid[row][col] is None
            &&& after.extra[e] is None
            &&& forall|r: int, c: int|
                0 <= r < ROWS && 0 <= c < COLUMNS && !(r == row && c == col)
                    ==> #[trigger] after.grid[r][c] == layout.grid[r][c]
            &&& forall|other: int|
                0 <= other < EXTRAS && other != e ==> #[trigger] after.extra[other]
                    == layout.extra[other]
            &&& after.cards() == layout.cards().remove(layout.extra[e]->0).remove(card)
        }),
{
    let col = if sel1 == WILDCARD {
        sel2
    } else {
        sel1
    };
    let row = layout.accessible_row(col);
    let card = layout.accessible_card(col);
    layout.lemma_accessible_exists(col);
    layout.lemma_first_match_exists(card.rank);
    let e = layout.first_match(card.rank);
    let between = layout.without_extra(e);
    layout.lemma_cards_without_extra(e);
    between.lemma_cards_without_grid(row, col);
}

/// A turn that does not end in a match leaves the table as it was, however
/// often it is played again: to play it once more ends as it did the first
/// time.
pub proof fn lemma_refused_turn_changes_nothing(layout: Layout, sel1: int, sel2: int, times: nat)
    requires
        turn_outcome(layout, sel1, sel2) != TurnOutcome::Match,
    ensures
        after_turn(layout, sel1, sel2) == layout,
        after_turns(layout, sel1, sel2, times) == layout,
        turn_outcome(after_turns(layout, sel1, sel2, times), sel1, sel2) == turn_outcome(
            layout,
            sel1,
            sel2,
        ),
    decreases times,
{
    if times > 0 {
        lemma_refused_turn_changes_nothing(layout, sel1, sel2, (times - 1) as nat);
    }
}

/// On an empty table no turn ends in a match, so the table stays empty.
pub proof fn lemma_empty_table_stays_empty(layout: Layout, sel1: int, sel2: int)
    requires
        layout.is_empty(),
    ensures
        turn_outcome(layout, sel1, sel2) != TurnOutcome::Match,
        after_turn(layout, sel1, sel2) == layout,
{
    if is_valid_pair(sel1, sel2) {
        if sel1 < WILDCARD {
            assert(layout.column_is_empty(sel1));
        } else {
            assert(layout.column_is_empty(sel2));
        }
    }
}

/// No turn puts a card on the table: the cards after a turn are among the
/// cards before it, and the table loses two cards on a match and none
/// otherwise.
pub proof fn lemma_turn_only_takes_cards(layout: Layout, sel1: int, sel2: int)
    requires
        layout.wf(),
    ensures
        after_turn(layout, sel1, sel2).wf(),
        after_turn(layout, sel1, sel2).cards().subset_of(layout.cards()),
        after_turn(layout, sel1, sel2).cards().len() == layout.cards().len() - (if turn_outcome(
            layout,
            sel1,
            sel2,
        ) == TurnOutcome::Match {
            2int
        } else {
            0int
        }),
{
    if turn_outcome(layout, sel1, sel2) == TurnOutcome::Match {
        let after = after_turn(layout, sel1, sel2);
        if sel1 == WILDCARD || sel2 == WILDCARD {
            lemma_wildcard_match_empties_one_of_each(layout, sel1, sel2);
            let col = if sel1 == WILDCARD {
                sel2
            } else {
                sel1
            };
            let card = layout.accessible_card(col);
            let e = layout.first_match(card.rank);
            let row = layout.accessible_row(col);
            let extra_card = layout.extra[e]->0;
            lemma_cards_in_count(layout.slots(), extra_card);
            assert(layout.slots()[ROWS * COLUMNS + e] == Some(extra_card));
            let between = layout.without_extra(e);
            layout.lemma_cards_without_extra(e);
            lemma_cards_in_count(between.slots(), card);
            assert(between.slots()[row * COLUMNS + col] == Some(card));
        } else {
            lemma_column_match_empties_two_slots(layout, sel1, sel2);
            let row1 = layout.accessible_row(sel1);
            let row2 = layout.accessible_row(sel2);
            let card1 = layout.accessible_card(sel1);
            let card2 = layout.accessible_card(sel2);
            lemma_cards_in_count(layout.slots(), card1);
            assert(layout.slots()[row1 * COLUMNS + sel1] == Some(card1));
            let between = layout.without_grid(row1, sel1);
            layout.lemma_cards_without_grid(row1, sel1);
            lemma_cards_in_count(between.slots(), card2);
            assert(between.slots()[row2 * COLUMNS + sel2] == Some(card2));
        }
    }
}

} // verus!
