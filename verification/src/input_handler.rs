//! What the player types, turned into choices.
//!
//! Nothing here reads or prints: each function takes a line of text and says
//! what it stands for, or that it stands for nothing.

use vstd::prelude::*;
use crate::state::{Difficulty, GameMode};

verus! {

/// The player's choice for the selected tile.
#[derive(PartialEq, Eq, Debug, Clone, Copy, Structural)]
pub enum InputMode {
    /// Uncover the tile.
    Clear,
    /// Put a flag on the tile, or take it off.
    Flag,
    /// Withdraw the selection.
    Undo,
}

/// Why a line of text was not taken.
#[derive(PartialEq, Eq, Debug, Clone, Copy, Structural)]
pub enum Rejected {
    /// The text does not have the form asked for.
    Invalid,
    /// The text has the right form and names a value outside the bounds.
    OutOfBounds,
}

/// What `str::to_lowercase` makes of a text.
pub uninterp spec fn lowercased(text: Seq<char>) -> Seq<char>;

/// What `str::trim` leaves of a text.
pub uninterp spec fn trimmed(text: Seq<char>) -> Seq<char>;

/// `str::to_lowercase`: the text with each character in lower case, as
/// Unicode defines it. The result depends on the text alone; what it is, is
/// not stated here.
#[verifier::external_body]
pub(crate) fn lowercase(text: &str) -> (lower: String)
    ensures
        lower@ == lowercased(text@),
{
    text.to_lowercase()
}

/// `str::trim`: the text without the whitespace at its start and at its end,
/// as Unicode defines whitespace. The result depends on the text alone; what
/// it is, is not stated here.
#[verifier::external_body]
pub(crate) fn trim<'a>(text: &'a str) -> (inner: &'a str)
    ensures
        inner@ == trimmed(text@),
{
    text.trim()
}

/// Whether two texts hold the same characters.
pub fn same_text(a: &str, b: &str) -> (same: bool)
    ensures
        same == (a@ == b@),
{
    let len: usize = a.unicode_len();
    if len != b.unicode_len() {
        return false;
    }
    let mut i: usize = 0;
    while i < len
        invariant
            i <= len,
            len == a@.len(),
            len == b@.len(),
            forall|j: int| 0 <= j < i ==> a@[j] == b@[j],
        decreases len - i,
    {
        if a.get_char(i) != b.get_char(i) {
            return false;
        }
        i += 1;
    }
    assert(a@ =~= b@);
    true
}

/// The answer a word gives to a yes-or-no question.
pub open spec fn bool_word(word: Seq<char>) -> Option<bool> {
    if word == "yes"@ || word == "y"@ || word == "Y"@ {
        Some(true)
    } else if word == "no"@ || word == "n"@ || word == "N"@ {
        Some(false)
    } else {
        None
    }
}

/// The input mode a word names.
pub open spec fn input_mode_word(word: Seq<char>) -> Option<InputMode> {
    if word == "clear"@ || word == "c"@ {
        Some(InputMode::Clear)
    } else if word == "flag"@ || word == "f"@ {
        Some(InputMode::Flag)
    } else if word == "undo"@ || word == "u"@ {
        Some(InputMode::Undo)
    } else {
        None
    }
}

/// The game mode a word names.
pub open spec fn game_mode_word(word: Seq<char>) -> Option<GameMode> {
    if word == "play"@ || word == "p"@ {
        Some(GameMode::Play)
    } else if word == "configure"@ || word == "c"@ {
        Some(GameMode::Config)
    } else if word == "quit"@ || word == "q"@ {
        Some(GameMode::Quit)
    } else {
        None
    }
}

/// The difficulty a word names.
pub open spec fn difficulty_word(word: Seq<char>) -> Option<Difficulty> {
    if word == "easy"@ || word == "e"@ {
        Some(Difficulty::Easy)
    } else if word == "medium"@ || word == "m"@ {
        Some(Difficulty::Medium)
    } else if word == "hard"@ || word == "h"@ {
        Some(Difficulty::Hard)
    } else {
        None
    }
}

/// The answer that `word` gives: `yes` or `y` for yes, `no` or `n` for no.
pub fn bool_of_word(word: &str) -> (answer: Option<bool>)
    ensures
        answer == bool_word(word@),
{
    if same_text(word, "yes") || same_text(word, "y") || same_text(word, "Y") {
        Some(true)
    } else if same_text(word, "no") || same_text(word, "n") || same_text(word, "N") {
        Some(false)
    } else {
        None
    }
}

/// The input mode that `word` names: `clear`, `flag` or `undo`, or the first
/// letter of one of them.
pub fn input_mode_of_word(word: &str) -> (mode: Option<InputMode>)
    ensures
        mode == input_mode_word(word@),
{
    if same_text(word, "clear") || same_text(word, "c") {
        Some(InputMode::Clear)
    } else if same_text(word, "flag") || same_text(word, "f") {
        Some(InputMode::Flag)
    } else if same_text(word, "undo") || same_text(word, "u") {
        Some(InputMode::Undo)
    } else {
        None
    }
}

/// The game mode that `word` names: `play`, `configure` or `quit`, or the
/// first letter of one of them.
pub fn game_mode_of_word(word: &str) -> (mode: Option<GameMode>)
    ensures
        mode == game_mode_word(word@),
{
    if same_text(word, "play") || same_text(word, "p") {
        Some(GameMode::Play)
    } else if same_text(word, "configure") || same_text(word, "c") {
        Some(GameMode::Config)
    } else if same_text(word, "quit") || same_text(word, "q") {
        Some(GameMode::Quit)
    } else {
        None
    }
}

/// The difficulty that `word` names: `easy`, `medium` or `hard`, or the
/// first letter of one of them.
pub fn difficulty_of_word(word: &str) -> (difficulty: Option<Difficulty>)
    ensures
        difficulty == difficulty_word(word@),
{
    if same_text(word, "easy") || same_text(word, "e") {
        Some(Difficulty::Easy)
    } else if same_text(word, "medium") || same_text(word, "m") {
        Some(Difficulty::Medium)
    } else if same_text(word, "hard") || same_text(word, "h") {
        Some(Difficulty::Hard)
    } else {
        None
    }
}

/// The answer in a line of text, whatever its case and the space around it.
pub fn parse_bool(input: &str) -> (answer: Option<bool>)
    ensures
        answer == bool_word(lowercased(trimmed(input@))),
{
    let word = lowercase(trim(input));
    bool_of_word(word.as_str())
}

/// The input mode in a line of text, whatever its case and the space around
/// it.
pub fn parse_input_mode(input: &str) -> (mode: Option<InputMode>)
    ensures
        mode == input_mode_word(lowercased(trimmed(input@))),
{
    let word = lowercase(trim(input));
    input_mode_of_word(word.as_str())
}

/// The game mode in a line of text, whatever its case and the space around
/// it.
pub fn parse_game_mode(input: &str) -> (mode: Option<GameMode>)
    ensures
        mode == game_mode_word(lowercased(trimmed(input@))),
{
    let word = lowercase(trim(input));
    game_mode_of_word(word.as_str())
}

/// The difficulty in a line of text, whatever its case and the space around
/// it.
pub fn parse_difficulty(input: &str) -> (difficulty: Option<Difficulty>)
    ensures
        difficulty == difficulty_word(lowercased(trimmed(input@))),
{
    let word = lowercase(trim(input));
    difficulty_of_word(word.as_str())
}

/// `c` is one of the digits `0` to `9`.
pub open spec fn is_digit(c: char) -> bool {
    '0' <= c <= '9'
}

/// The number that a text made of digits stands for in decimal.
pub open spec fn digits_value(digits: Seq<char>) -> nat
    decreases digits.len(),
{
    if digits.len() == 0 {
        0
    } else {
        digits_value(digits.drop_last()) * 10 + (digits.last() as nat - '0' as nat) as nat
    }
}

/// Every character of the text is a digit.
pub open spec fn all_digits(digits: Seq<char>) -> bool {
    forall|i: int| 0 <= i < digits.len() ==> is_digit(#[trigger] digits[i])
}

/// The text without the plus sign at its start, if it has one.
pub open spec fn unsigned(text: Seq<char>) -> Seq<char> {
    if text.len() > 0 && text[0] == '+' {
        text.skip(1)
    } else {
        text
    }
}

/// The number that a text stands for: one or more digits, with or without a
/// plus sign before them, that make a number no larger than `u32::MAX`.
pub open spec fn number_in(text: Seq<char>) -> Option<u32> {
    let digits = unsigned(text);
    if digits.len() > 0 && all_digits(digits) && digits_value(digits) <= u32::MAX {
        Some(digits_value(digits) as u32)
    } else {
        None
    }
}

/// More digits do not make a smaller number.
proof fn lemma_digits_grow(digits: Seq<char>, k: int)
    requires
        all_digits(digits),
        0 <= k <= digits.len(),
    ensures
        digits_value(digits.take(k)) <= digits_value(digits),
    decreases digits.len() - k,
{
    if k == digits.len() {
        assert(digits.take(k) == digits);
    } else {
        lemma_digits_grow(digits, k + 1);
        let longer = digits.take(k + 1);
        assert(longer.drop_last() == digits.take(k));
        assert(is_digit(digits[k]));
        assert(longer.last() == digits[k]);
    }
}

/// The number that `text` stands for, if it stands for one.
pub fn number_of_text(text: &str) -> (number: Option<u32>)
    ensures
        number == number_in(text@),
{
    let len: usize = text.unicode_len();
    let mut i: usize = 0;
    if len > 0 && text.get_char(0) == '+' {
        i = 1;
    }
    if i == len {
        return None;
    }
    let start: usize = i;
    let ghost digits = text@.subrange(start as int, len as int);
    assert(digits == unsigned(text@));
    let mut value: u32 = 0;
    assert(digits.take(0) =~= Seq::<char>::empty());
    while i < len
        invariant
            start <= i <= len,
            len == text@.len(),
            digits == text@.subrange(start as int, len as int),
            digits == unsigned(text@),
            forall|j: int| 0 <= j < i - start ==> is_digit(#[trigger] digits[j]),
            value == digits_value(digits.take(i - start)),
        decreases len - i,
    {
        let c: char = text.get_char(i);
        assert(digits[i - start] == c);
        if c < '0' || c > '9' {
            assert(!is_digit(digits[i - start]));
            return None;
        }
        let d: u32 = (c as u32) - ('0' as u32);
        let ghost longer = digits.take(i - start + 1);
        assert(longer.drop_last() == digits.take(i - start));
        assert(longer.last() == c);
        if value > (u32::MAX - d) / 10 {
            proof {
                assert(digits_value(longer) > u32::MAX);
                if all_digits(digits) {
                    lemma_digits_grow(digits, i - start + 1);
                }
            }
            return None;
        }
        value = value * 10 + d;
        i += 1;
    }
    assert(digits.take(i - start) == digits);
    Some(value)
}

/// The number in a line of text, whatever the space around it, if it lies
/// from `min` to `max`.
pub fn parse_int(input: &str, min: u32, max: u32) -> (number: Result<u32, Rejected>)
    ensures
        number == match number_in(trimmed(input@)) {
            Some(n) => if min <= n <= max {
                Ok(n)
            } else {
                Err(Rejected::OutOfBounds)
            },
            None => Err(Rejected::Invalid),
        },
{
    match number_of_text(trim(input)) {
        Some(n) => {
            if n >= min && n <= max {
                Ok(n)
            } else {
                Err(Rejected::OutOfBounds)
            }
        },
        None => Err(Rejected::Invalid),
    }
}

/// The letter in lower case, if it is one of `A` to `Z`; any other character
/// as it is.
pub open spec fn ascii_lower(c: char) -> char {
    if 'A' <= c <= 'Z' {
        (c as nat + 32) as char
    } else {
        c
    }
}

/// The column that a letter names, counted from zero: `a` the first, `b` the
/// next, and so on through the characters that follow. Capital letters name
/// the same columns. Characters before `a` name none.
pub open spec fn column_of(c: char) -> Option<nat> {
    if ascii_lower(c) >= 'a' {
        Some((ascii_lower(c) as nat - 'a' as nat) as nat)
    } else {
        None
    }
}

/// The column and row, both counted from zero, that a text such as `c7`
/// names on a board of `width` columns and `height` rows, where the first
/// row is written `min`.
pub open spec fn column_row_in(text: Seq<char>, min: u32, width: u32, height: u32) -> Result<
    (u32, u32),
    Rejected,
> {
    if text.len() == 0 {
        Err(Rejected::Invalid)
    } else {
        match number_in(text.skip(1)) {
            None => Err(Rejected::Invalid),
            Some(row) => match column_of(text[0]) {
                Some(column) => if min - 1 <= column < width && min <= row <= height {
                    Ok((column as u32, (row - 1) as u32))
                } else {
                    Err(Rejected::OutOfBounds)
                },
                None => Err(Rejected::OutOfBounds),
            },
        }
    }
}

/// The column and row that a line of text names: a letter for the column and
/// a number for the row. The first row is written `min`, which is at least 1.
pub fn parse_column_row(input: &str, min: u32, width: u32, height: u32) -> (place: Result<
    (u32, u32),
    Rejected,
>)
    requires
        min >= 1,
    ensures
        place == column_row_in(input@, min, width, height),
{
    let len: usize = input.unicode_len();
    if len == 0 {
        return Err(Rejected::Invalid);
    }
    let first: char = input.get_char(0);
    let rest = input.substring_char(1, len);
    assert(rest@ == input@.skip(1));
    match number_of_text(rest) {
        None => Err(Rejected::Invalid),
        Some(row) => {
            let code: u32 = first as u32;
            let lower: u32 = if 65 <= code && code <= 90 {
                code + 32
            } else {
                code
            };
            assert(lower == ascii_lower(first) as u32);
            if lower < 97 {
                return Err(Rejected::OutOfBounds);
            }
            let column: u32 = lower - 97;
            if column >= min - 1 && column < width && row >= min && row <= height {
                Ok((column, row - 1))
            } else {
                Err(Rejected::OutOfBounds)
            }
        },
    }
}

/// The text without a line feed at its end, and then without a carriage
/// return at its end.
pub open spec fn without_line_end(line: Seq<char>) -> Seq<char> {
    let cut = if line.len() > 0 && line.last() == '\n' {
        line.drop_last()
    } else {
        line
    };
    if cut.len() > 0 && cut.last() == '\r' {
        cut.drop_last()
    } else {
        cut
    }
}

/// What a line read from the player holds: the line without its end, in
/// lower case, or nothing if nothing is left.
pub fn clean_line(line: &str) -> (cleaned: Option<String>)
    ensures
        without_line_end(line@).len() == 0 ==> cleaned is None,
        without_line_end(line@).len() > 0 ==> cleaned is Some && cleaned.unwrap()@ == lowercased(
            without_line_end(line@),
        ),
{
    let mut len: usize = line.unicode_len();
    if len > 0 && line.get_char(len - 1) == '\n' {
        len -= 1;
    }
    if len > 0 && line.get_char(len - 1) == '\r' {
        len -= 1;
    }
    let kept = line.substring_char(0, len);
    assert(kept@ =~= without_line_end(line@));
    if len == 0 {
        None
    } else {
        Some(lowercase(kept))
    }
}

} // verus!
