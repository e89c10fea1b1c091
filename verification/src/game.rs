//! A game: a board, and whether it has been won.
//!
//! The game is played turn by turn until the board is empty. It cannot be
//! lost, and nothing limits the number of turns.

use vstd::prelude::*;
use crate::board::Board;
use crate::layout::Layout;
use crate::turn::{
    after_turn, lemma_empty_table_stays_empty, resolve_turn, turn_outcome, TurnOutcome,
};

verus! {

/// Where a game stands.
#[derive(Clone, Copy, Debug, PartialEq, Eq, Structural)]
pub enum GameState {
    /// Cards are left on the board.
    Playing,
    /// The board is empty. Nothing follows this state.
    Won,
}

/// A board together with the state of the game played on it. The game is
/// `Won` exactly when the board is empty.
#[derive(Clone, Copy, Debug)]
pub struct Game {
    board: Board,
    state: GameState,
}

/// The state of a game whose board is empty or not.
pub open spec fn state_for(empty: bool) -> GameState {
    if empty {
        GameState::Won
    } else {
        GameState::Playing
    }
}

impl Game {
    #[verifier::type_invariant]
    spec fn won_when_empty(self) -> bool {
        self.state == state_for(self.board@.is_empty())
    }

    /// The board of the game.
    pub closed spec fn spec_board(&self) -> &Board {
        &self.board
    }

    /// The state of the game.
    pub closed spec fn spec_state(&self) -> GameState {
        self.state
    }

    /// A game on `board`. It is won from the start when `board` is empty.
    pub fn new(board: Board) -> (game: Game)
        ensures
            game.board() == board,
            game.state() == state_for(board@.is_empty()),
    {
        let state = if board.is_empty() {
            GameState::Won
        } else {
            GameState::Playing
        };
        Game { board, state }
    }

    /// The board as it lies now.
    #[verifier::when_used_as_spec(spec_board)]
    pub fn board(&self) -> (board: &Board)
        ensures
            board == self.spec_board(),
    {
        &self.board
    }

    /// The state of the game: `Won` when the board is empty and `Playing`
    /// when it is not.
    #[verifier::when_used_as_spec(spec_state)]
    pub fn state(&self) -> (state: GameState)
        ensures
            state == self.spec_state(),
            state == state_for(self.board()@.is_empty()),
    {
        proof {
            use_type_invariant(self);
        }
        self.state
    }

    /// Tells whether the game has been won, that is whether the board is empty.
    pub fn is_won(&self) -> (won: bool)
        ensures
            won == (self.state() == GameState::Won),
            won == self.board()@.is_empty(),
    {
        proof {
            use_type_invariant(self);
        }
        self.state == GameState::Won
    }

    /// Plays the turn with the selections `sel1` and `sel2`, counted from
    /// zero, and says how it ended. The board changes as `resolve_turn` says.
    /// The game is won after the turn exactly when the board is then empty;
    /// a game that was won stays won, with its board empty.
    pub fn play_turn(&mut self, sel1: usize, sel2: usize) -> (outcome: TurnOutcome)
        ensures
            outcome == turn_outcome(old(self).board()@, sel1 as int, sel2 as int),
            final(self).board()@ == after_turn(old(self).board()@, sel1 as int, sel2 as int),
            final(self).state() == state_for(final(self).board()@.is_empty()),
            old(self).state() == GameState::Won ==> final(self).state() == GameState::Won
                && final(self).board()@ == old(self).board()@,
            old(self).state() == GameState::Playing && final(self).state() == GameState::Won
                ==> outcome == TurnOutcome::Match,
    {
        proof {
            use_type_invariant(&*self);
            lemma_turn_keeps_state(self.board@, sel1 as int, sel2 as int);
        }
        let mut board = self.board;
        let outcome = resolve_turn(&mut board, sel1, sel2);
        let state = if board.is_empty() {
            GameState::Won
        } else {
            GameState::Playing
        };
        *self = Game { board, state };
        outcome
    }
}

/// The state of the game changes only with a match: a turn that ends
/// otherwise leaves the table as it was, and an empty table stays empty.
pub proof fn lemma_turn_keeps_state(layout: Layout, sel1: int, sel2: int)
    ensures
        layout.is_empty() ==> after_turn(layout, sel1, sel2).is_empty(),
        turn_outcome(layout, sel1, sel2) != TurnOutcome::Match ==> state_for(
            after_turn(layout, sel1, sel2).is_empty(),
        ) == state_for(layout.is_empty()),
{
    if layout.is_empty() {
        lemma_empty_table_stays_empty(layout, sel1, sel2);
    }
}

/// The selection that a player means by the number `entry`. Players count
/// the columns from one, so the selection is one less. The entry zero names
/// nothing, and gives a selection that no turn accepts.
pub fn selection_of_entry(entry: usize) -> (sel: usize)
    ensures
        entry >= 1 ==> sel == entry - 1,
        entry == 0 ==> sel == usize::MAX,
{
    if entry >= 1 {
        entry - 1
    } else {
        usize::MAX
    }
}

} // verus!
