use nestor::board::Board;
use nestor::card::{Card, Rank, Suit};
use nestor::deck::Deck;
use nestor::input::{decimal_digit, is_space_char, parse_entry};
use nestor::render::{extra_text, grid_row_text, rank_text, slot_text, suit_text};

#[test]
fn ranks_and_suits_have_their_letters() {
    assert_eq!(rank_text(Rank::Two), "2");
    assert_eq!(rank_text(Rank::Three), "3");
    assert_eq!(rank_text(Rank::Four), "4");
    assert_eq!(rank_text(Rank::Five), "5");
    assert_eq!(rank_text(Rank::Six), "6");
    assert_eq!(rank_text(Rank::Seven), "7");
    assert_eq!(rank_text(Rank::Eight), "8");
    assert_eq!(rank_text(Rank::Nine), "9");
    assert_eq!(rank_text(Rank::Ten), "Z");
    assert_eq!(rank_text(Rank::Jack), "J");
    assert_eq!(rank_text(Rank::Queen), "Q");
    assert_eq!(rank_text(Rank::King), "K");
    assert_eq!(rank_text(Rank::Ace), "A");
    assert_eq!(suit_text(Suit::Hearts), "C");
    assert_eq!(suit_text(Suit::Diamonds), "D");
    assert_eq!(suit_text(Suit::Clubs), "T");
    assert_eq!(suit_text(Suit::Spades), "E");
}

#[test]
fn label_is_rank_then_suit() {
    assert_eq!(Card::new(Rank::Ten, Suit::Spades).label(), "ZE");
    assert_eq!(Card::new(Rank::Two, Suit::Hearts).label(), "2C");
    assert_eq!(Card::new(Rank::King, Suit::Clubs).label(), "KT");
    assert_eq!(Card::new(Rank::Ace, Suit::Diamonds).label(), "AD");
}

#[test]
fn slots_are_told_apart_by_their_text() {
    let mut texts = vec![slot_text(None)];
    for card in Deck::new().cards() {
        texts.push(slot_text(Some(*card)));
    }
    assert_eq!(texts.len(), 53);
    assert_eq!(texts[0], "None");
    for i in 0..texts.len() {
        for j in 0..i {
            assert_ne!(texts[i], texts[j]);
        }
    }
}

#[test]
fn a_row_is_written_slot_by_slot() {
    let mut board = Board::deal(&Deck::new());
    assert_eq!(grid_row_text(&board, 0), "2C 3C 4C 5C 6C 7C 8C 9C ");
    assert_eq!(grid_row_text(&board, 1), "ZC JC QC KC AC 2D 3D 4D ");
    assert_eq!(grid_row_text(&board, 5), "3E 4E 5E 6E 7E 8E 9E ZE ");
    board.remove_at_grid(5, 0);
    board.remove_at_grid(5, 7);
    assert_eq!(grid_row_text(&board, 5), "None 4E 5E 6E 7E 8E 9E None ");
    let nothing = Board::new([[None; 8]; 6], [None; 4]);
    assert_eq!(grid_row_text(&nothing, 3), "None None None None None None None None ");
}

#[test]
fn an_extra_slot_is_written_with_its_number() {
    let mut board = Board::deal(&Deck::new());
    assert_eq!(extra_text(&board, 0), "1: JE");
    assert_eq!(extra_text(&board, 1), "2: QE");
    assert_eq!(extra_text(&board, 2), "3: KE");
    assert_eq!(extra_text(&board, 3), "4: AE");
    board.remove_extra(2);
    assert_eq!(extra_text(&board, 2), "3: None");
}

#[test]
fn plain_numbers_are_read() {
    assert_eq!(parse_entry("0"), Some(0));
    assert_eq!(parse_entry("1"), Some(1));
    assert_eq!(parse_entry("9"), Some(9));
    assert_eq!(parse_entry("42"), Some(42));
    assert_eq!(parse_entry("007"), Some(7));
    assert_eq!(parse_entry("+5"), Some(5));
    assert_eq!(parse_entry("1234567890"), Some(1234567890));
}

#[test]
fn white_space_around_a_number_is_left_aside() {
    assert_eq!(parse_entry("3\n"), Some(3));
    assert_eq!(parse_entry("3\r\n"), Some(3));
    assert_eq!(parse_entry("  \t 12  "), Some(12));
    assert_eq!(parse_entry("\u{a0}8\u{3000}"), Some(8));
    assert_eq!(parse_entry(" +4 "), Some(4));
}

#[test]
fn what_is_no_number_is_refused() {
    assert_eq!(parse_entry(""), None);
    assert_eq!(parse_entry("   "), None);
    assert_eq!(parse_entry("\n"), None);
    assert_eq!(parse_entry("+"), None);
    assert_eq!(parse_entry("-"), None);
    assert_eq!(parse_entry("-1"), None);
    assert_eq!(parse_entry("++1"), None);
    assert_eq!(parse_entry("1 2"), None);
    assert_eq!(parse_entry("+ 2"), None);
    assert_eq!(parse_entry("12a"), None);
    assert_eq!(parse_entry("a12"), None);
    assert_eq!(parse_entry("1.5"), None);
    assert_eq!(parse_entry("1_000"), None);
    assert_eq!(parse_entry("0x10"), None);
    assert_eq!(parse_entry("\u{663}"), None);
    assert_eq!(parse_entry("nueve"), None);
}

#[test]
fn the_largest_number_is_read_and_the_next_is_not() {
    let largest = format!("{}", usize::MAX);
    assert_eq!(parse_entry(&largest), Some(usize::MAX));
    assert_eq!(parse_entry(&format!(" +{}\n", usize::MAX)), Some(usize::MAX));
    assert_eq!(parse_entry(&format!("{}0", usize::MAX)), None);
    assert_eq!(parse_entry(&format!("{}", usize::MAX as u128 + 1)), None);
    assert_eq!(parse_entry("99999999999999999999999999999999999999"), None);
    assert_eq!(parse_entry("99999999999999999999999999999999999999x"), None);
}

#[test]
fn entries_are_read_as_the_standard_library_reads_them() {
    let lines = [
        "",
        " ",
        "0",
        "9",
        "10",
        " 7",
        "7 ",
        "\t7\n",
        "+7",
        "+",
        "-7",
        "+-7",
        "7+",
        "\u{663}",
        "1e3",
        "00",
        "+0",
        "18446744073709551615",
        "18446744073709551616",
        "4294967295",
        "4294967296",
        "\u{2003}5\u{205f}",
        "\u{200b}5",
        "5\u{0}",
        "\u{85}6",
        "\u{1680}6\u{2028}\u{2029}",
        "\u{202f}1",
        "\u{180e}1",
    ];
    for line in lines {
        assert_eq!(parse_entry(line), line.trim().parse::<usize>().ok());
    }
}

#[test]
fn white_space_is_what_the_standard_library_calls_so() {
    for code in 0..=0x10ffffu32 {
        if let Some(c) = char::from_u32(code) {
            assert_eq!(is_space_char(c), c.is_whitespace());
        }
    }
    assert!(is_space_char(' '));
    assert!(is_space_char('\n'));
    assert!(!is_space_char('x'));
    assert!(!is_space_char('\u{200b}'));
}

#[test]
fn decimal_digits_have_their_values() {
    let digits = ['0', '1', '2', '3', '4', '5', '6', '7', '8', '9'];
    for (value, digit) in digits.iter().enumerate() {
        assert_eq!(decimal_digit(*digit), Some(value));
    }
    assert_eq!(decimal_digit('/'), None);
    assert_eq!(decimal_digit(':'), None);
    assert_eq!(decimal_digit('a'), None);
    assert_eq!(decimal_digit('+'), None);
    assert_eq!(decimal_digit('\u{663}'), None);
}
