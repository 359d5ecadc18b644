//! The commands that the player types: what a line asks for, and what the
//! commands that edit the grid do to it.

use vstd::prelude::*;
use vstd::string::*;
use std::num::ParseIntError;
use crate::error::Error;
use crate::grid::{Board, Label, SIZE, VALS, in_grid};
use crate::text::{decimal, push_decimal};

verus! {

/// What a line of input asks for.
#[derive(Debug, Clone, Copy, PartialEq, Eq)]
pub enum Command {
    /// Leave the program.
    Quit,
    /// List the commands.
    Help,
    /// Reveal cells as `value`: those of row `row` and column `column`,
    /// counted from one, where zero stands for every row or column.
    Assign { column: u8, row: u8, value: u8 },
    /// Hide one cell again.
    Reset,
    /// Hide every cell again.
    Clear,
    /// Enter the labels anew.
    Headers,
    /// Nothing: the line begins with a word that names no command, or it
    /// is a `set` that lacks a number.
    Nothing,
}

/// What a text says when it is read as a value: the value, or that the text
/// falls short of one, or that a word of it is no number.
pub enum Reading<T> {
    Read(T),
    Missing,
    Malformed,
}

/// The words of `line`: what `str::split_whitespace` of the standard
/// library yields for it, in order.
pub uninterp spec fn words_of(line: Seq<char>) -> Seq<Seq<char>>;

/// Whether `c` is a decimal digit.
pub open spec fn is_digit(c: char) -> bool {
    '0' <= c <= '9'
}

/// The number that the decimal digits of `digits` write.
pub open spec fn digits_value(digits: Seq<char>) -> nat
    decreases digits.len(),
{
    if digits.len() == 0 {
        0
    } else {
        (digits_value(digits.drop_last()) * 10 + (digits.last() as nat - '0' as nat)) as nat
    }
}

/// `word` without the plus sign that may stand in front of a number.
pub open spec fn unsigned_part(word: Seq<char>) -> Seq<char> {
    if word.len() > 0 && word[0] == '+' {
        word.drop_first()
    } else {
        word
    }
}

/// Whether `word` writes a number up to `max`: decimal digits, at least
/// one, with or without a plus sign in front, and nothing else.
pub open spec fn reads_number(word: Seq<char>, max: nat) -> bool {
    let digits = unsigned_part(word);
    &&& digits.len() > 0
    &&& forall|i: int| 0 <= i < digits.len() ==> is_digit(#[trigger] digits[i])
    &&& digits_value(digits) <= max
}

/// The number that `word` writes.
pub open spec fn number_of(word: Seq<char>) -> nat {
    digits_value(unsigned_part(word))
}

/// Whether `word` names a row or a column for `set`: a number that fits
/// eight bits, or `all`.
pub open spec fn reads_line(word: Seq<char>) -> bool {
    word == "all"@ || reads_number(word, u8::MAX as nat)
}

/// The row or column that `word` names for `set`, where zero stands for all.
pub open spec fn line_of(word: Seq<char>) -> u8 {
    if word == "all"@ {
        0
    } else {
        number_of(word) as u8
    }
}

/// What the words behind `set` ask for. The numbers are read in order, and
/// the first that is missing or malformed decides.
pub open spec fn set_reading(words: Seq<Seq<char>>) -> Reading<Command> {
    if words.len() < 2 {
        Reading::Read(Command::Nothing)
    } else if !reads_line(words[1]) {
        Reading::Malformed
    } else if words.len() < 3 {
        Reading::Read(Command::Nothing)
    } else if !reads_line(words[2]) {
        Reading::Malformed
    } else if words.len() < 4 {
        Reading::Read(Command::Nothing)
    } else if !reads_number(words[3], u8::MAX as nat) {
        Reading::Malformed
    } else {
        Reading::Read(
            Command::Assign {
                column: line_of(words[1]),
                row: line_of(words[2]),
                value: number_of(words[3]) as u8,
            },
        )
    }
}

/// What a line of these words asks for. The first word names the command;
/// a line without words names none.
pub open spec fn command_reading(words: Seq<Seq<char>>) -> Reading<Command> {
    if words.len() == 0 {
        Reading::Missing
    } else if words[0] == "quit"@ {
        Reading::Read(Command::Quit)
    } else if words[0] == "help"@ {
        Reading::Read(Command::Help)
    } else if words[0] == "set"@ {
        set_reading(words)
    } else if words[0] == "reset"@ {
        Reading::Read(Command::Reset)
    } else if words[0] == "clear"@ {
        Reading::Read(Command::Clear)
    } else if words[0] == "headers"@ {
        Reading::Read(Command::Headers)
    } else {
        Reading::Read(Command::Nothing)
    }
}

/// What a line of these words says when it is read as a label: its first
/// two words are the points and the voltorbs.
pub open spec fn label_reading(words: Seq<Seq<char>>) -> Reading<Label> {
    if words.len() < 1 {
        Reading::Missing
    } else if !reads_number(words[0], u8::MAX as nat) {
        Reading::Malformed
    } else if words.len() < 2 {
        Reading::Missing
    } else if !reads_number(words[1], u8::MAX as nat) {
        Reading::Malformed
    } else {
        Reading::Read((number_of(words[0]) as u8, number_of(words[1]) as u8))
    }
}

/// Whether `result` reports `reading`: the value that was read, the failure
/// named `missing` where the text fell short, the failure of the standard
/// library where a word was no number.
pub open spec fn reports<T>(result: Result<T, Error>, reading: Reading<T>, missing: Seq<char>) -> bool {
    match result {
        Ok(value) => reading == Reading::Read(value),
        Err(Error::Custom(text)) => reading is Missing && text@ == missing,
        Err(Error::Plain(_)) => reading is Malformed,
    }
}

/// The texts of `words`.
pub open spec fn texts(words: Seq<String>) -> Seq<Seq<char>> {
    Seq::new(words.len(), |i: int| words[i]@)
}

/// Whether `index`, counted from zero, is among the rows or columns that
/// `choice` names, where zero names all and any other number one, counted
/// from one.
pub open spec fn covers(choice: u8, index: int) -> bool {
    choice == 0 || choice == index + 1
}

/// `str::split_whitespace` of the standard library, each word copied into
/// a `String`. The words come out in the order in which they stand in
/// `line`; which characters part them is left to the standard library.
#[verifier::external_body]
fn split_words(line: &str) -> (words: Vec<String>)
    ensures
        texts(words@) == words_of(line@),
{
    line.split_whitespace().map(String::from).collect()
}

/// `str::parse::<u8>` of the standard library. It reads decimal digits with
/// or without a plus sign in front, and fails on an empty text, on any other
/// character, and on a number beyond 255.
#[verifier::external_body]
fn parse_u8(word: &str) -> (parsed: Result<u8, ParseIntError>)
    ensures
        match parsed {
            Ok(value) => reads_number(word@, u8::MAX as nat) && value == number_of(word@),
            Err(_) => !reads_number(word@, u8::MAX as nat),
        },
{
    word.parse::<u8>()
}

/// `str::parse::<usize>` of the standard library. It reads decimal digits
/// with or without a plus sign in front, and fails on an empty text, on any
/// other character, and on a number beyond `usize::MAX`.
#[verifier::external_body]
fn parse_usize(word: &str) -> (parsed: Result<usize, ParseIntError>)
    ensures
        match parsed {
            Ok(value) => reads_number(word@, usize::MAX as nat) && value == number_of(word@),
            Err(_) => !reads_number(word@, usize::MAX as nat),
        },
{
    word.parse::<usize>()
}

/// Whether `word` is the word `name`.
fn is_word(word: &String, name: &str) -> (same: bool)
    ensures
        same == (word@ == name@),
{
    *word == name.to_owned()
}

/// Reads a number that fits eight bits.
fn read_u8(word: &String) -> (read: Result<u8, Error>)
    ensures
        match read {
            Ok(value) => reads_number(word@, u8::MAX as nat) && value == number_of(word@),
            Err(error) => !reads_number(word@, u8::MAX as nat) && error is Plain,
        },
{
    match parse_u8(word.as_str()) {
        Ok(value) => Ok(value),
        Err(error) => Err(Error::Plain(error)),
    }
}

/// Reads the row or the column of a `set`: a number, or `all` for zero.
fn read_choice(word: &String) -> (read: Result<u8, Error>)
    ensures
        match read {
            Ok(value) => reads_line(word@) && value == line_of(word@),
            Err(error) => !reads_line(word@) && error is Plain,
        },
{
    if is_word(word, "all") {
        proof {
            reveal_strlit("0");
            reveal_strlit("all");
            reveal_with_fuel(digits_value, 2);
            assert("0"@.drop_last() =~= Seq::<char>::empty());
        }
        let zero = "0".to_owned();
        match read_u8(&zero) {
            Ok(value) => Ok(value),
            Err(error) => Err(error),
        }
    } else {
        read_u8(word)
    }
}

/// Reads an index, counted from one, as `reset` asks for them.
pub fn read_index(word: &str) -> (read: Result<usize, Error>)
    ensures
        match read {
            Ok(value) => reads_number(word@, usize::MAX as nat) && value == number_of(word@),
            Err(error) => !reads_number(word@, usize::MAX as nat) && error is Plain,
        },
{
    match parse_usize(word) {
        Ok(value) => Ok(value),
        Err(error) => Err(Error::Plain(error)),
    }
}

/// What the words behind `set` ask for.
fn interpret_set(words: &Vec<String>) -> (read: Result<Command, Error>)
    requires
        words@.len() > 0,
    ensures
        reports(read, set_reading(texts(words@)), "Unparsable"@),
{
    if words.len() < 2 {
        return Ok(Command::Nothing);
    }
    let column = match read_choice(&words[1]) {
        Ok(column) => column,
        Err(error) => {
            return Err(error);
        },
    };
    if words.len() < 3 {
        return Ok(Command::Nothing);
    }
    let row = match read_choice(&words[2]) {
        Ok(row) => row,
        Err(error) => {
            return Err(error);
        },
    };
    if words.len() < 4 {
        return Ok(Command::Nothing);
    }
    let value = match read_u8(&words[3]) {
        Ok(value) => value,
        Err(error) => {
            return Err(error);
        },
    };
    Ok(Command::Assign { column, row, value })
}

/// What a line of these words asks for. A line without words fails as
/// `Unparsable`; a `set` with a word that is no number fails with the
/// failure of the standard library.
pub fn interpret(words: &Vec<String>) -> (read: Result<Command, Error>)
    ensures
        reports(read, command_reading(texts(words@)), "Unparsable"@),
{
    if words.len() == 0 {
        return Err(Error::new("Unparsable"));
    }
    let first = &words[0];
    if is_word(first, "quit") {
        Ok(Command::Quit)
    } else if is_word(first, "help") {
        Ok(Command::Help)
    } else if is_word(first, "set") {
        interpret_set(words)
    } else if is_word(first, "reset") {
        Ok(Command::Reset)
    } else if is_word(first, "clear") {
        Ok(Command::Clear)
    } else if is_word(first, "headers") {
        Ok(Command::Headers)
    } else {
        Ok(Command::Nothing)
    }
}

/// What `line` asks for: `interpret` of its words.
pub fn parse_command(line: &str) -> (read: Result<Command, Error>)
    ensures
        reports(read, command_reading(words_of(line@)), "Unparsable"@),
{
    let words = split_words(line);
    interpret(&words)
}

/// Reads a label from the words of a line: the points, then the voltorbs.
/// Words beyond the second are not looked at. A line that falls short
/// fails as `Bad Arguments`; a word that is no number fails with the
/// failure of the standard library.
pub fn interpret_label(words: &Vec<String>) -> (read: Result<Label, Error>)
    ensures
        reports(read, label_reading(texts(words@)), "Bad Arguments"@),
{
    if words.len() < 1 {
        return Err(Error::new("Bad Arguments"));
    }
    let points = match read_u8(&words[0]) {
        Ok(points) => points,
        Err(error) => {
            return Err(error);
        },
    };
    if words.len() < 2 {
        return Err(Error::new("Bad Arguments"));
    }
    let voltorbs = match read_u8(&words[1]) {
        Ok(voltorbs) => voltorbs,
        Err(error) => {
            return Err(error);
        },
    };
    Ok((points, voltorbs))
}

/// Reads a label from `line`: `interpret_label` of its words.
pub fn parse_label(line: &str) -> (read: Result<Label, Error>)
    ensures
        reports(read, label_reading(words_of(line@)), "Bad Arguments"@),
{
    let words = split_words(line);
    interpret_label(&words)
}

/// Whether `value` is one that a cell can hold.
pub fn is_value(value: u8) -> (known: bool)
    ensures
        known == (value <= 3),
{
    let mut known = false;
    for k in 0..4usize
        invariant
            known == (value < k),
    {
        if VALS[k] == value {
            known = true;
        }
    }
    known
}

/// Whether `next` is `board` with `value` in every cell whose row is among
/// those that `row` names and whose column is among those that `column`
/// names.
pub open spec fn is_filled(board: Board, column: u8, row: u8, value: u8, next: Board) -> bool {
    forall|r: int, c: int|
        in_grid(r, c) ==> (#[trigger] next[r][c]) == if covers(row, r) && covers(column, c) {
            Some(value)
        } else {
            board[r][c]
        }
}

/// Whether `next` is `board` with one cell hidden again: the one in column
/// `column`, counted from the left, and row `row`, counted from the bottom,
/// both from one.
pub open spec fn is_reset(board: Board, column: usize, row: usize, next: Board) -> bool {
    forall|r: int, c: int|
        in_grid(r, c) ==> (#[trigger] next[r][c]) == if r == SIZE - row && c == column - 1 {
            None
        } else {
            board[r][c]
        }
}

/// The grid that `set` proposes, or `None` where `row` or `column` names
/// no line of the grid and so the command is to be refused.
pub fn fill(board: &Board, column: u8, row: u8, value: u8) -> (next: Option<Board>)
    ensures
        match next {
            Some(next) => row <= SIZE && column <= SIZE && is_filled(*board, column, row, value, next),
            None => row > SIZE || column > SIZE,
        },
{
    if row as usize > SIZE || column as usize > SIZE {
        None
    } else {
        Some(fill_lines(board, column, row, value))
    }
}

/// `board` with `value` in the rows and columns that `row` and `column`
/// name.
fn fill_lines(board: &Board, column: u8, row: u8, value: u8) -> (next: Board)
    requires
        row <= SIZE,
        column <= SIZE,
    ensures
        is_filled(*board, column, row, value, next),
{
    let first_row: usize = if row == 0 {
        0
    } else {
        row as usize - 1
    };
    let end_row: usize = if row == 0 {
        SIZE
    } else {
        row as usize
    };
    let first_column: usize = if column == 0 {
        0
    } else {
        column as usize - 1
    };
    let end_column: usize = if column == 0 {
        SIZE
    } else {
        column as usize
    };
    let mut next = *board;
    for r in first_row..end_row
        invariant
            end_row <= SIZE,
            end_column <= SIZE,
            first_row == if row == 0 {
                0
            } else {
                row - 1
            },
            first_column == if column == 0 {
                0
            } else {
                column - 1
            },
            end_row == if row == 0 {
                SIZE as int
            } else {
                row as int
            },
            end_column == if column == 0 {
                SIZE as int
            } else {
                column as int
            },
            forall|i: int, j: int|
                in_grid(i, j) ==> (#[trigger] next[i][j]) == if i < r && covers(row, i) && covers(
                    column,
                    j,
                ) {
                    Some(value)
                } else {
                    board[i][j]
                },
    {
        for c in first_column..end_column
            invariant
                first_row <= r < end_row,
                end_row <= SIZE,
                end_column <= SIZE,
                first_row == if row == 0 {
                    0
                } else {
                    row - 1
                },
                first_column == if column == 0 {
                    0
                } else {
                    column - 1
                },
                end_row == if row == 0 {
                    SIZE as int
                } else {
                    row as int
                },
                end_column == if column == 0 {
                    SIZE as int
                } else {
                    column as int
                },
                forall|i: int, j: int|
                    in_grid(i, j) ==> (#[trigger] next[i][j]) == if (i < r || (i == r && j < c))
                        && covers(row, i) && covers(column, j) {
                        Some(value)
                    } else {
                        board[i][j]
                    },
        {
            next[r][c] = Some(value);
        }
    }
    next
}

/// The grid that `reset` proposes: `board` with one cell hidden again. The
/// columns are counted from the left and the rows from the bottom, both
/// from one. Where `row` or `column` names no line of the grid the result
/// is `None`, and the command is to be refused.
pub fn reset_cell(board: &Board, column: usize, row: usize) -> (next: Option<Board>)
    ensures
        match next {
            Some(next) => 1 <= row <= SIZE && 1 <= column <= SIZE && is_reset(
                *board,
                column,
                row,
                next,
            ),
            None => !(1 <= row <= SIZE && 1 <= column <= SIZE),
        },
{
    if row < 1 || row > SIZE || column < 1 || column > SIZE {
        return None;
    }
    let mut next = *board;
    next[SIZE - row][column - 1] = None;
    Some(next)
}

/// What `set` and `reset` answer to a row or a column that is not on the
/// grid.
pub fn off_board() -> (text: String)
    ensures
        text@ == "Invalid Cell; must be on the board\n"@,
{
    "Invalid Cell; must be on the board\n".to_owned()
}

/// Whether `response` agrees to a change: it is the letter `y`.
pub fn agrees(response: &String) -> (yes: bool)
    ensures
        yes == (response@ == "y"@),
{
    is_word(response, "y")
}

/// `line` without the white space at its ends: what `str::trim` of the
/// standard library returns for it.
pub uninterp spec fn trimmed(line: Seq<char>) -> Seq<char>;

/// `line` in lower case: what `str::to_lowercase` of the standard library
/// returns for it.
pub uninterp spec fn lowercased(line: Seq<char>) -> Seq<char>;

/// `str::trim` of the standard library, which removes the white space at
/// both ends of a text; which characters count as white space is left to
/// the standard library.
#[verifier::external_body]
fn trim<'a>(line: &'a str) -> (short: &'a str)
    ensures
        short@ == trimmed(line@),
{
    line.trim()
}

/// `str::to_lowercase` of the standard library, which returns the text in
/// lower case; what the lower case of a character is is left to the
/// standard library.
#[verifier::external_body]
fn to_lowercase(line: &str) -> (lower: String)
    ensures
        lower@ == lowercased(line@),
{
    line.to_lowercase()
}

/// A line as it was typed, made ready to be read: without the white space
/// at its ends, and in lower case.
pub fn normalize(line: &str) -> (clean: String)
    ensures
        clean@ == lowercased(trimmed(line@)),
{
    to_lowercase(trim(line))
}

/// The first `n` values of `VALS`, in decimal and parted by a comma and a
/// space.
pub open spec fn values_text(n: int) -> Seq<char>
    decreases n,
{
    if n <= 0 {
        Seq::empty()
    } else if n == 1 {
        decimal(VALS[0] as nat)
    } else {
        values_text(n - 1) + seq![',', ' '] + decimal(VALS[n - 1] as nat)
    }
}

/// What `set` answers to a value that no cell can hold.
pub open spec fn refusal_text() -> Seq<char> {
    "Invalid Value; must be in ["@ + values_text(4) + seq![']', '\n']
}

/// What `set` answers to a value that no cell can hold: the values that a
/// cell can hold, in brackets.
pub fn refusal() -> (text: String)
    ensures
        text@ == refusal_text(),
{
    let mut text = "Invalid Value; must be in [".to_owned();
    for k in 0..4usize
        invariant
            text@ == "Invalid Value; must be in ["@ + values_text(k as int),
    {
        if k > 0 {
            text.push(',');
            text.push(' ');
        }
        push_decimal(&mut text, VALS[k] as usize);
        assert(text@ =~= "Invalid Value; must be in ["@ + values_text(k + 1));
    }
    text.push(']');
    text.push('\n');
    assert(text@ =~= refusal_text());
    text
}

/// The question for the label of a row, with the rows counted from one.
pub fn right_question(index: usize) -> (text: String)
    requires
        index < usize::MAX,
    ensures
        text@ == "Right "@ + decimal((index + 1) as nat) + " =    "@,
{
    let mut text = "Right ".to_owned();
    push_decimal(&mut text, index + 1);
    text.append(" =    ");
    text
}

/// The question for the label of a column, with the columns counted from
/// one.
pub fn bottom_question(index: usize) -> (text: String)
    requires
        index < usize::MAX,
    ensures
        text@ == "Bottom "@ + decimal((index + 1) as nat) + " =     "@,
{
    let mut text = "Bottom ".to_owned();
    push_decimal(&mut text, index + 1);
    text.append(" =     ");
    text
}

} // verus!
