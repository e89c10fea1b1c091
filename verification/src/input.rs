//! The number that a player typed.
//!
//! A line of input stands for a number when, the white space at both ends
//! left aside, it is made of decimal digits, with or without a plus sign
//! before them, and the number fits in a `usize`.

use vstd::prelude::*;

verus! {

/// `c` is white space.
pub open spec fn is_space(c: char) -> bool {
    let code = c as int;
    ||| 0x09 <= code <= 0x0D
    ||| code == 0x20
    ||| code == 0x85
    ||| code == 0xA0
    ||| code == 0x1680
    ||| 0x2000 <= code <= 0x200A
    ||| code == 0x2028
    ||| code == 0x2029
    ||| code == 0x202F
    ||| code == 0x205F
    ||| code == 0x3000
}

/// `text` without the white space at its start.
pub open spec fn trim_start(text: Seq<char>) -> Seq<char>
    decreases text.len(),
{
    if text.len() > 0 && is_space(text.first()) {
        trim_start(text.drop_first())
    } else {
        text
    }
}

/// `text` without the white space at its end.
pub open spec fn trim_end(text: Seq<char>) -> Seq<char>
    decreases text.len(),
{
    if text.len() > 0 && is_space(text.last()) {
        trim_end(text.drop_last())
    } else {
        text
    }
}

/// `text` without the white space at its start and at its end.
pub open spec fn trimmed(text: Seq<char>) -> Seq<char> {
    trim_end(trim_start(text))
}

/// `c` is a decimal digit.
pub open spec fn is_digit(c: char) -> bool {
    '0' <= c <= '9'
}

/// The number that the digit `c` stands for.
pub open spec fn digit_value(c: char) -> int {
    c as int - '0' as int
}

/// Every character of `text` is a decimal digit.
pub open spec fn all_digits(text: Seq<char>) -> bool {
    forall|i: int| 0 <= i < text.len() ==> is_digit(#[trigger] text[i])
}

/// The number that the decimal digits `digits` write.
pub open spec fn number_of(digits: Seq<char>) -> int
    decreases digits.len(),
{
    if digits.len() == 0 {
        0
    } else {
        number_of(digits.drop_last()) * 10 + digit_value(digits.last())
    }
}

/// The digits of a line: the line trimmed, without the plus sign that may
/// stand first.
pub open spec fn digits_of(line: Seq<char>) -> Seq<char> {
    let text = trimmed(line);
    if text.len() > 0 && text.first() == '+' {
        text.drop_first()
    } else {
        text
    }
}

/// The number that `line` stands for, if it stands for one.
pub open spec fn entry_of(line: Seq<char>) -> Option<usize> {
    let digits = digits_of(line);
    if digits.len() > 0 && all_digits(digits) && number_of(digits) <= usize::MAX {
        Some(number_of(digits) as usize)
    } else {
        None
    }
}

/// Text whose first `start` characters are white space, and whose next one
/// is not, loses exactly those at its start.
pub proof fn lemma_trim_start(text: Seq<char>, start: int)
    requires
        0 <= start <= text.len(),
        forall|i: int| 0 <= i < start ==> is_space(#[trigger] text[i]),
        start < text.len() ==> !is_space(text[start]),
    ensures
        trim_start(text) == text.subrange(start, text.len() as int),
    decreases start,
{
    if start == 0 {
        assert(text.subrange(0, text.len() as int) =~= text);
    } else {
        let rest = text.drop_first();
        assert(is_space(text[0]));
        assert forall|i: int| 0 <= i < start - 1 implies is_space(#[trigger] rest[i]) by {
            assert(rest[i] == text[i + 1]);
        }
        lemma_trim_start(rest, start - 1);
        assert(rest.subrange(start - 1, rest.len() as int) =~= text.subrange(
            start,
            text.len() as int,
        ));
    }
}

/// Text whose characters from `end` on are white space, and whose character
/// before `end` is not, loses exactly those at its end.
pub proof fn lemma_trim_end(text: Seq<char>, end: int)
    requires
        0 <= end <= text.len(),
        forall|i: int| end <= i < text.len() ==> is_space(#[trigger] text[i]),
        end > 0 ==> !is_space(text[end - 1]),
    ensures
        trim_end(text) == text.subrange(0, end),
    decreases text.len() - end,
{
    if end == text.len() {
        assert(text.subrange(0, end) =~= text);
    } else {
        let rest = text.drop_last();
        assert(is_space(text[text.len() - 1]));
        lemma_trim_end(rest, end);
        assert(rest.subrange(0, end) =~= text.subrange(0, end));
    }
}

/// Digits written after a number make it no smaller.
pub proof fn lemma_number_grows(digits: Seq<char>, len: int)
    requires
        0 <= len <= digits.len(),
        all_digits(digits),
    ensures
        0 <= number_of(digits.subrange(0, len)) <= number_of(digits),
    decreases digits.len() - len,
{
    let front = digits.subrange(0, len);
    assert(0 <= number_of(front)) by {
        lemma_number_is_natural(front);
    }
    if len < digits.len() {
        let next = digits.subrange(0, len + 1);
        assert(next.drop_last() =~= front);
        assert(is_digit(digits[len]));
        assert(next.last() == digits[len]);
        lemma_number_grows(digits, len + 1);
    } else {
        assert(front =~= digits);
    }
}

/// Decimal digits write a number that is not negative.
pub proof fn lemma_number_is_natural(digits: Seq<char>)
    requires
        all_digits(digits),
    ensures
        0 <= number_of(digits),
    decreases digits.len(),
{
    if digits.len() > 0 {
        lemma_number_is_natural(digits.drop_last());
        assert(is_digit(digits.last()));
    }
}

/// Tells whether `c` is white space.
pub fn is_space_char(c: char) -> (space: bool)
    ensures
        space == is_space(c),
{
    ('\u{9}' <= c && c <= '\u{d}') || c == ' ' || c == '\u{85}' || c == '\u{a0}' || c == '\u{1680}'
        || ('\u{2000}' <= c && c <= '\u{200a}') || c == '\u{2028}' || c == '\u{2029}' || c
        == '\u{202f}' || c == '\u{205f}' || c == '\u{3000}'
}

/// The number that the decimal digit `c` stands for. `None` when `c` is no
/// decimal digit.
pub fn decimal_digit(c: char) -> (digit: Option<usize>)
    ensures
        match digit {
            Some(value) => is_digit(c) && value == digit_value(c),
            None => !is_digit(c),
        },
{
    match c {
        '0' => Some(0),
        '1' => Some(1),
        '2' => Some(2),
        '3' => Some(3),
        '4' => Some(4),
        '5' => Some(5),
        '6' => Some(6),
        '7' => Some(7),
        '8' => Some(8),
        '9' => Some(9),
        _ => None,
    }
}

/// The characters of `line`, in order.
fn chars_of(line: &str) -> (chars: Vec<char>)
    ensures
        chars@ == line@,
{
    let mut chars: Vec<char> = Vec::new();
    for c in it: line.chars()
        invariant
            chars@ == it.seq().take(it.index()),
            it.seq() == line@,
    {
        chars.push(c);
    }
    chars
}

/// Reads the number that a player typed on `line`. White space at both
/// ends is left aside. What is left must be decimal digits, with or without
/// one plus sign before them, and the number must fit in a `usize`; any
/// other line gives `None`.
pub fn parse_entry(line: &str) -> (entry: Option<usize>)
    ensures
        entry == entry_of(line@),
{
    let chars = chars_of(line);
    let len = chars.len();
    let mut start: usize = 0;
    while start < len && is_space_char(chars[start])
        invariant
            start <= len,
            len == chars@.len(),
            forall|i: int| 0 <= i < start ==> is_space(#[trigger] chars@[i]),
        decreases len - start,
    {
        start = start + 1;
    }
    let mut end: usize = len;
    while end > start && is_space_char(chars[end - 1])
        invariant
            start <= end <= len,
            len == chars@.len(),
            forall|i: int| end <= i < len ==> is_space(#[trigger] chars@[i]),
        decreases end,
    {
        end = end - 1;
    }
    let ghost kept = chars@.subrange(start as int, end as int);
    proof {
        let tail = chars@.subrange(start as int, len as int);
        lemma_trim_start(chars@, start as int);
        assert forall|i: int| end - start <= i < tail.len() implies is_space(
            #[trigger] tail[i],
        ) by {
            assert(tail[i] == chars@[i + start]);
        }
        lemma_trim_end(tail, end - start);
        assert(tail.subrange(0, end - start) =~= kept);
        assert(trimmed(line@) == kept);
    }
    let mut at: usize = start;
    if at < end && chars[at] == '+' {
        at = at + 1;
    }
    let ghost digits = chars@.subrange(at as int, end as int);
    proof {
        if start < end && chars@[start as int] == '+' {
            assert(kept.drop_first() =~= digits);
        }
        assert(digits_of(line@) == digits);
    }
    if at == end {
        return None;
    }
    let first = at;
    let mut value: usize = 0;
    while at < end
        invariant
            first <= at <= end <= len,
            first < end,
            len == chars@.len(),
            digits == chars@.subrange(first as int, end as int),
            digits_of(line@) == digits,
            all_digits(digits.subrange(0, at - first)),
            value == number_of(digits.subrange(0, at - first)),
        decreases end - at,
    {
        let ghost read = digits.subrange(0, at - first);
        let ghost next = digits.subrange(0, at - first + 1);
        proof {
            assert(next.drop_last() =~= read);
            assert(next.last() == chars@[at as int]);
        }
        let digit = match decimal_digit(chars[at]) {
            Some(digit) => digit,
            None => {
                assert(digits[at - first] == chars@[at as int]);
                assert(!all_digits(digits));
                return None;
            },
        };
        assert(all_digits(next));
        proof {
            if all_digits(digits) {
                lemma_number_grows(digits, at - first + 1);
            }
        }
        value = match value.checked_mul(10) {
            Some(tens) => tens,
            None => {
                return None;
            },
        };
        value = match value.checked_add(digit) {
            Some(sum) => sum,
            None => {
                return None;
            },
        };
        at = at + 1;
    }
    proof {
        assert(digits.subrange(0, at - first) =~= digits);
    }
    Some(value)
}

} // verus!
