use nestor::board::Board;
use nestor::card::{Card, Rank, Suit};
use nestor::turn::{resolve_turn, Side, TurnOutcome, WILDCARD};

fn card(rank: Rank, suit: Suit) -> Option<Card> {
    Some(Card::new(rank, suit))
}

fn empty_grid() -> [[Option<Card>; 8]; 6] {
    [[None; 8]; 6]
}

/// A full table: no two cards that can be reached share a rank, and no
/// extra card has the rank of one of them.
fn full_board() -> Board {
    let ranks = [
        Rank::Two,
        Rank::Three,
        Rank::Four,
        Rank::Five,
        Rank::Six,
        Rank::Eight,
        Rank::Nine,
        Rank::Ten,
    ];
    let suits =
        [Suit::Hearts, Suit::Diamonds, Suit::Clubs, Suit::Spades, Suit::Hearts, Suit::Diamonds];
    let mut grid = empty_grid();
    for row in 0..6 {
        for col in 0..8 {
            grid[row][col] = card(ranks[(col + row) % 8], suits[row]);
        }
    }
    let extra = [
        card(Rank::Jack, Suit::Hearts),
        card(Rank::Queen, Suit::Hearts),
        card(Rank::King, Suit::Hearts),
        card(Rank::Ace, Suit::Hearts),
    ];
    Board::new(grid, extra)
}

#[test]
fn two_sevens_on_top_of_two_columns_match() {
    let mut grid = empty_grid();
    for row in 0..6 {
        for col in 0..8 {
            grid[row][col] = card(Rank::Two, Suit::Spades);
        }
    }
    grid[5][0] = card(Rank::Seven, Suit::Hearts);
    grid[5][3] = card(Rank::Seven, Suit::Clubs);
    let extra = [card(Rank::Ace, Suit::Hearts); 4];
    let mut board = Board::new(grid, extra);
    let before = board;

    assert_eq!(resolve_turn(&mut board, 0, 3), TurnOutcome::Match);

    assert_eq!(board.card_at(5, 0), None);
    assert_eq!(board.card_at(5, 3), None);
    for row in 0..6 {
        for col in 0..8 {
            if !(row == 5 && (col == 0 || col == 3)) {
                assert_eq!(board.card_at(row, col), before.card_at(row, col));
            }
        }
    }
    for e in 0..4 {
        assert_eq!(board.extra_at(e), before.extra_at(e));
    }
}

#[test]
fn empty_first_column_is_reported_for_the_first_side() {
    let mut board = full_board();
    for row in 0..6 {
        board.remove_at_grid(row, 0);
    }
    let before = board;
    assert_eq!(board.top_of_column(0), None);
    assert!(board.top_of_column(1).is_some());

    assert_eq!(resolve_turn(&mut board, 0, 1), TurnOutcome::EmptyPosition(Side::First));
    assert_eq!(board, before);
}

#[test]
fn empty_second_column_is_reported_for_the_second_side() {
    let mut board = full_board();
    for row in 0..6 {
        board.remove_at_grid(row, 4);
    }
    let before = board;
    assert_eq!(resolve_turn(&mut board, 1, 4), TurnOutcome::EmptyPosition(Side::Second));
    assert_eq!(resolve_turn(&mut board, WILDCARD, 4), TurnOutcome::EmptyPosition(Side::Second));
    assert_eq!(resolve_turn(&mut board, 4, WILDCARD), TurnOutcome::EmptyPosition(Side::First));
    assert_eq!(board, before);
}

#[test]
fn two_empty_columns_are_reported_for_the_first_side() {
    let mut board = Board::new(empty_grid(), [None; 4]);
    assert_eq!(resolve_turn(&mut board, 2, 6), TurnOutcome::EmptyPosition(Side::First));
    assert_eq!(board, Board::new(empty_grid(), [None; 4]));
}

#[test]
fn the_same_selection_twice_is_invalid() {
    let mut board = full_board();
    let before = board;
    assert_eq!(resolve_turn(&mut board, 5, 5), TurnOutcome::InvalidPosition);
    assert_eq!(board, before);
}

#[test]
fn the_wildcard_twice_is_invalid() {
    let mut grid = empty_grid();
    grid[5][0] = card(Rank::Two, Suit::Hearts);
    let extra = [card(Rank::Nine, Suit::Hearts), card(Rank::Nine, Suit::Clubs), None, None];
    let mut board = Board::new(grid, extra);
    let before = board;
    assert_eq!(resolve_turn(&mut board, WILDCARD, WILDCARD), TurnOutcome::InvalidPosition);
    assert_eq!(board, before);
}

#[test]
fn selections_out_of_range_are_invalid() {
    let mut board = full_board();
    let before = board;
    assert_eq!(resolve_turn(&mut board, 9, 0), TurnOutcome::InvalidPosition);
    assert_eq!(resolve_turn(&mut board, 0, 9), TurnOutcome::InvalidPosition);
    assert_eq!(resolve_turn(&mut board, 3, 100), TurnOutcome::InvalidPosition);
    assert_eq!(resolve_turn(&mut board, usize::MAX, 1), TurnOutcome::InvalidPosition);
    assert_eq!(resolve_turn(&mut board, usize::MAX, usize::MAX), TurnOutcome::InvalidPosition);
    assert_eq!(board, before);
}

#[test]
fn wildcard_takes_the_extra_king_and_leaves_the_queen() {
    let mut grid = empty_grid();
    grid[3][2] = card(Rank::Five, Suit::Diamonds);
    grid[4][2] = card(Rank::King, Suit::Spades);
    grid[5][1] = card(Rank::Queen, Suit::Spades);
    let extra = [None, card(Rank::Queen, Suit::Hearts), card(Rank::King, Suit::Clubs), None];
    let mut board = Board::new(grid, extra);

    assert_eq!(resolve_turn(&mut board, WILDCARD, 2), TurnOutcome::Match);

    assert_eq!(board.extra_at(0), None);
    assert_eq!(board.extra_at(1), card(Rank::Queen, Suit::Hearts));
    assert_eq!(board.extra_at(2), None);
    assert_eq!(board.extra_at(3), None);
    assert_eq!(board.card_at(4, 2), None);
    assert_eq!(board.card_at(3, 2), card(Rank::Five, Suit::Diamonds));
    assert_eq!(board.card_at(5, 1), card(Rank::Queen, Suit::Spades));
    assert_eq!(board.top_of_column(2), Some((Card::new(Rank::Five, Suit::Diamonds), 3)));
}

#[test]
fn wildcard_on_the_second_side_works_the_same() {
    let mut grid = empty_grid();
    grid[5][6] = card(Rank::Three, Suit::Spades);
    let extra = [card(Rank::Four, Suit::Hearts), None, None, card(Rank::Three, Suit::Clubs)];
    let mut board = Board::new(grid, extra);

    assert_eq!(resolve_turn(&mut board, 6, WILDCARD), TurnOutcome::Match);

    assert_eq!(board.card_at(5, 6), None);
    assert_eq!(board.extra_at(0), card(Rank::Four, Suit::Hearts));
    assert_eq!(board.extra_at(3), None);
}

#[test]
fn wildcard_picks_the_lowest_of_several_matching_extras() {
    let mut grid = empty_grid();
    grid[0][7] = card(Rank::Ten, Suit::Spades);
    let extra = [
        card(Rank::Two, Suit::Hearts),
        card(Rank::Ten, Suit::Hearts),
        card(Rank::Ten, Suit::Diamonds),
        card(Rank::Ten, Suit::Clubs),
    ];
    let mut board = Board::new(grid, extra);
    assert_eq!(board.find_extra(Rank::Ten), Some(1));

    assert_eq!(resolve_turn(&mut board, WILDCARD, 7), TurnOutcome::Match);

    assert_eq!(board.extra_at(0), card(Rank::Two, Suit::Hearts));
    assert_eq!(board.extra_at(1), None);
    assert_eq!(board.extra_at(2), card(Rank::Ten, Suit::Diamonds));
    assert_eq!(board.extra_at(3), card(Rank::Ten, Suit::Clubs));
    assert_eq!(board.card_at(0, 7), None);
    assert_eq!(board.find_extra(Rank::Ten), Some(2));
}

#[test]
fn wildcard_without_a_matching_extra_is_no_match() {
    let mut board = full_board();
    let before = board;
    assert_eq!(resolve_turn(&mut board, WILDCARD, 0), TurnOutcome::NoMatch);
    assert_eq!(resolve_turn(&mut board, 0, WILDCARD), TurnOutcome::NoMatch);
    assert_eq!(board, before);
}

#[test]
fn wildcard_with_no_extra_left_is_no_match() {
    let mut grid = empty_grid();
    grid[5][0] = card(Rank::Ace, Suit::Hearts);
    let mut board = Board::new(grid, [None; 4]);
    let before = board;
    assert_eq!(resolve_turn(&mut board, WILDCARD, 0), TurnOutcome::NoMatch);
    assert_eq!(board, before);
}

#[test]
fn different_ranks_on_two_columns_are_no_match() {
    let mut board = full_board();
    let before = board;
    assert_eq!(resolve_turn(&mut board, 0, 1), TurnOutcome::NoMatch);
    assert_eq!(board, before);
}

#[test]
fn suits_play_no_part_in_a_match() {
    let mut grid = empty_grid();
    grid[5][0] = card(Rank::Jack, Suit::Hearts);
    grid[5][1] = card(Rank::Jack, Suit::Hearts);
    grid[5][2] = card(Rank::Queen, Suit::Hearts);
    let mut board = Board::new(grid, [None; 4]);
    assert_eq!(resolve_turn(&mut board, 0, 2), TurnOutcome::NoMatch);
    assert_eq!(resolve_turn(&mut board, 1, 0), TurnOutcome::Match);
    assert_eq!(board.card_at(5, 0), None);
    assert_eq!(board.card_at(5, 1), None);
    assert_eq!(board.card_at(5, 2), card(Rank::Queen, Suit::Hearts));
}

#[test]
fn a_refused_turn_played_again_changes_nothing() {
    let mut board = full_board();
    let before = board;
    for _ in 0..5 {
        assert_eq!(resolve_turn(&mut board, 0, 1), TurnOutcome::NoMatch);
        assert_eq!(resolve_turn(&mut board, 4, 4), TurnOutcome::InvalidPosition);
        assert_eq!(resolve_turn(&mut board, 12, 1), TurnOutcome::InvalidPosition);
        assert_eq!(resolve_turn(&mut board, WILDCARD, 3), TurnOutcome::NoMatch);
        assert_eq!(board, before);
    }
    for row in 0..6 {
        board.remove_at_grid(row, 7);
    }
    let emptied = board;
    for _ in 0..5 {
        assert_eq!(resolve_turn(&mut board, 7, 2), TurnOutcome::EmptyPosition(Side::First));
        assert_eq!(board, emptied);
    }
}

#[test]
fn a_match_uncovers_the_card_above() {
    let mut grid = empty_grid();
    grid[4][0] = card(Rank::Six, Suit::Hearts);
    grid[5][0] = card(Rank::Nine, Suit::Hearts);
    grid[4][1] = card(Rank::Six, Suit::Clubs);
    grid[5][1] = card(Rank::Nine, Suit::Clubs);
    let mut board = Board::new(grid, [None; 4]);
    assert_eq!(resolve_turn(&mut board, 0, 1), TurnOutcome::Match);
    assert_eq!(board.top_of_column(0), Some((Card::new(Rank::Six, Suit::Hearts), 4)));
    assert_eq!(board.top_of_column(1), Some((Card::new(Rank::Six, Suit::Clubs), 4)));
    assert_eq!(resolve_turn(&mut board, 1, 0), TurnOutcome::Match);
    assert!(board.is_empty());
}
