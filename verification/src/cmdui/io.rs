//! The control sequences that a terminal takes. Nothing here writes to the
//! terminal: each function returns the text to send.

use vstd::prelude::*;
use crate::error::Error;
use crate::text::{decimal, push_decimal};

verus! {

/// The character that begins a control sequence.
pub const ESC: char = '\x1b';

/// Whether a character can be shown: its code, taken modulo 256, lies
/// between the space and the tilde.
pub open spec fn writable(c: char) -> bool {
    31 < (c as u32) % 256 < 127
}

/// The sequence that moves the cursor to `row` and `column`.
pub open spec fn cursor_sequence(row: nat, column: nat) -> Seq<char> {
    seq![ESC, '['] + decimal(row) + seq![';'] + decimal(column) + seq!['H']
}

/// The sequence that moves the cursor to the first cell and erases the
/// screen with what was scrolled off it.
pub open spec fn clear_sequence() -> Seq<char> {
    cursor_sequence(1, 1) + seq![ESC, '[', '3', 'J'] + seq![ESC, '[', '0', 'J']
}

/// The sequence that hides the cursor.
pub open spec fn hide_sequence() -> Seq<char> {
    seq![ESC, '[', '?', '2', '5', 'l']
}

/// The sequence that shows the cursor.
pub open spec fn show_sequence() -> Seq<char> {
    seq![ESC, '[', '?', '2', '5', 'h']
}

/// What paints the first `n` cells of row `r`: for each cell the sequence
/// that moves the cursor there, and the character of the cell.
pub open spec fn row_sequence(cells: Seq<char>, r: nat, n: int) -> Seq<char>
    decreases n,
{
    if n <= 0 {
        Seq::empty()
    } else {
        row_sequence(cells, r, n - 1) + cursor_sequence(r, (n - 1) as nat) + seq![cells[n - 1]]
    }
}

/// What paints the first `n` rows of `buffer`.
pub open spec fn rows_sequence(buffer: Seq<Vec<char>>, n: int) -> Seq<char>
    decreases n,
{
    if n <= 0 {
        Seq::empty()
    } else {
        rows_sequence(buffer, n - 1) + row_sequence(
            buffer[n - 1]@,
            (n - 1) as nat,
            buffer[n - 1]@.len() as int,
        )
    }
}

/// Whether every character of `buffer` can be shown.
pub open spec fn all_writable(buffer: Seq<Vec<char>>) -> bool {
    forall|r: int, c: int|
        0 <= r < buffer.len() && 0 <= c < buffer[r]@.len() ==> writable(#[trigger] buffer[r]@[c])
}

/// What `render` sends for `buffer`: the cursor is hidden, and then, if
/// every character can be shown, every cell is painted.
pub open spec fn frame_sequence(buffer: Seq<Vec<char>>) -> Seq<char> {
    if all_writable(buffer) {
        hide_sequence() + rows_sequence(buffer, buffer.len() as int)
    } else {
        hide_sequence()
    }
}

/// Whether a character can be shown.
pub fn is_writable(c: char) -> (shown: bool)
    ensures
        shown == writable(c),
{
    let low = (c as u32) % 256;
    low > 31 && low < 127
}

/// Appends the sequence that moves the cursor to `row` and `column`.
fn push_cursor(out: &mut String, row: usize, column: usize)
    ensures
        final(out)@ == old(out)@ + cursor_sequence(row as nat, column as nat),
{
    out.push(ESC);
    out.push('[');
    push_decimal(out, row);
    out.push(';');
    push_decimal(out, column);
    out.push('H');
    assert(out@ =~= old(out)@ + cursor_sequence(row as nat, column as nat));
}

/// The text that clears the screen.
pub fn clear_screen() -> (text: String)
    ensures
        text@ == clear_sequence(),
{
    let mut text = String::new();
    push_cursor(&mut text, 1, 1);
    text.push(ESC);
    text.push('[');
    text.push('3');
    text.push('J');
    text.push(ESC);
    text.push('[');
    text.push('0');
    text.push('J');
    assert(text@ =~= clear_sequence());
    text
}

/// The text that hides the cursor.
pub fn hide_cursor() -> (text: String)
    ensures
        text@ == hide_sequence(),
{
    let mut text = String::new();
    text.push(ESC);
    text.push('[');
    text.push('?');
    text.push('2');
    text.push('5');
    text.push('l');
    assert(text@ =~= hide_sequence());
    text
}

/// The text that shows the cursor.
pub fn show_cursor() -> (text: String)
    ensures
        text@ == show_sequence(),
{
    let mut text = String::new();
    text.push(ESC);
    text.push('[');
    text.push('?');
    text.push('2');
    text.push('5');
    text.push('h');
    assert(text@ =~= show_sequence());
    text
}

/// The text that moves the cursor to `row` and `column`.
pub fn set_cursor(row: usize, column: usize) -> (text: String)
    ensures
        text@ == cursor_sequence(row as nat, column as nat),
{
    let mut text = String::new();
    push_cursor(&mut text, row, column);
    text
}

/// Whether every character of `buffer` can be shown.
fn check_buffer(buffer: &Vec<Vec<char>>) -> (ok: bool)
    ensures
        ok == all_writable(buffer@),
{
    for row in 0..buffer.len()
        invariant
            forall|r: int, c: int|
                0 <= r < row && 0 <= c < buffer@[r]@.len() ==> writable(#[trigger] buffer@[r]@[c]),
    {
        let cells = &buffer[row];
        for column in 0..cells.len()
            invariant
                row < buffer.len(),
                cells == buffer@[row as int],
                forall|r: int, c: int|
                    0 <= r < row && 0 <= c < buffer@[r]@.len() ==> writable(
                        #[trigger] buffer@[r]@[c],
                    ),
                forall|c: int| 0 <= c < column ==> writable(#[trigger] cells@[c]),
        {
            if !is_writable(cells[column]) {
                assert(!writable(buffer@[row as int]@[column as int]));
                return false;
            }
        }
    }
    true
}

/// The text that puts `buffer` on the screen, and whether `buffer` could be
/// shown. The cursor is hidden first. A buffer with a character that
/// cannot be shown is refused as a whole: nothing of it is painted.
pub fn render(buffer: &Vec<Vec<char>>) -> (out: (String, Result<(), Error>))
    ensures
        out.0@ == frame_sequence(buffer@),
        match out.1 {
            Ok(_) => all_writable(buffer@),
            Err(error) => !all_writable(buffer@) && error.is_custom(
                "Invalid char in screen buffer."@,
            ),
        },
{
    let mut text = hide_cursor();
    if !check_buffer(buffer) {
        return (text, Err(Error::new("Invalid char in screen buffer.")));
    }
    let ghost hidden = text@;
    for row in 0..buffer.len()
        invariant
            hidden == hide_sequence(),
            text@ == hidden + rows_sequence(buffer@, row as int),
    {
        let cells = &buffer[row];
        let ghost above = text@;
        for column in 0..cells.len()
            invariant
                row < buffer.len(),
                cells == buffer@[row as int],
                text@ == above + row_sequence(cells@, row as nat, column as int),
        {
            push_cursor(&mut text, row, column);
            text.push(cells[column]);
        }
    }
    (text, Ok(()))
}

} // verus!
