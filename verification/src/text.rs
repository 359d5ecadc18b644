//! Fixed-width text for a terminal: the grid, its labels, and the tables of
//! the aggregator.

use vstd::prelude::*;
use vstd::string::*;
use std::collections::BTreeSet;
use crate::grid::{Board, Header, SIZE};
use crate::stats::{Counts, Possible};

verus! {

/// The character that stands for a cell.
pub open spec fn glyph(cell: Option<u8>) -> char {
    match cell {
        Some(v) => if v == 0 {
            '0'
        } else if v == 1 {
            '1'
        } else if v == 2 {
            '2'
        } else if v == 3 {
            '3'
        } else {
            '?'
        },
        None => '-',
    }
}

/// The character of a decimal digit.
pub open spec fn digit(d: nat) -> char
    recommends
        d < 10,
{
    if d == 0 {
        '0'
    } else if d == 1 {
        '1'
    } else if d == 2 {
        '2'
    } else if d == 3 {
        '3'
    } else if d == 4 {
        '4'
    } else if d == 5 {
        '5'
    } else if d == 6 {
        '6'
    } else if d == 7 {
        '7'
    } else if d == 8 {
        '8'
    } else {
        '9'
    }
}

/// A number in decimal, without sign or leading zeros.
pub open spec fn decimal(n: nat) -> Seq<char>
    decreases n,
{
    if n < 10 {
        seq![digit(n)]
    } else {
        decimal(n / 10).push(digit(n % 10))
    }
}

/// `text` with as many `fill` in front as it takes to reach `width`
/// characters; a longer text stays as it is.
pub open spec fn pad_left(text: Seq<char>, width: nat, fill: char) -> Seq<char> {
    if text.len() >= width {
        text
    } else {
        Seq::new((width - text.len()) as nat, |i: int| fill) + text
    }
}

/// The texts of `cells`, each followed by a space.
pub open spec fn spaced(cells: Seq<Seq<char>>) -> Seq<char>
    decreases cells.len(),
{
    if cells.len() == 0 {
        Seq::empty()
    } else {
        spaced(cells.drop_last()) + cells.last() + seq![' ']
    }
}

/// The texts of `lines`, each followed by a line feed.
pub open spec fn stacked(lines: Seq<Seq<char>>) -> Seq<char>
    decreases lines.len(),
{
    if lines.len() == 0 {
        Seq::empty()
    } else {
        stacked(lines.drop_last()) + lines.last() + seq!['\n']
    }
}

/// One row of the grid: a space, then the glyph of each cell and a space.
pub open spec fn row_text(board: Board, r: int) -> Seq<char> {
    seq![' '] + spaced(Seq::new(SIZE as nat, |c: int| seq![glyph(board[r][c])]))
}

/// The grid, one line per row.
pub open spec fn board_text(board: Board) -> Seq<char> {
    stacked(Seq::new(SIZE as nat, |r: int| row_text(board, r)))
}

/// One row of the grid with its label to the right: the points in two
/// digits at least, a space, the voltorbs.
pub open spec fn labelled_row_text(right: Header, board: Board, r: int) -> Seq<char> {
    row_text(board, r) + seq![' ', ' ', ' '] + pad_left(decimal(right[r].0 as nat), 2, '0') + seq![
        ' ',
    ] + decimal(right[r].1 as nat)
}

/// The column labels in two lines: the points, each in two digits at least
/// and followed by a space, then, after a line feed, the voltorbs, each
/// between two spaces.
pub open spec fn footer_text(bottom: Header) -> Seq<char> {
    spaced(Seq::new(SIZE as nat, |c: int| pad_left(decimal(bottom[c].0 as nat), 2, '0'))) + seq![
        '\n',
    ] + spaced(
        Seq::new(SIZE as nat, |c: int| seq![' '] + pad_left(decimal(bottom[c].1 as nat), 1, ' ')),
    )
}

/// The grid with the row labels to its right and, after an empty line, the
/// column labels below it.
pub open spec fn labelled_board_text(right: Header, bottom: Header, board: Board) -> Seq<char> {
    stacked(Seq::new(SIZE as nat, |r: int| labelled_row_text(right, board, r))) + seq!['\n']
        + footer_text(bottom)
}

/// Taking one more cell appends its text and a space.
proof fn lemma_spaced_next(cells: Seq<Seq<char>>, n: int)
    requires
        0 <= n < cells.len(),
    ensures
        spaced(cells.take(n + 1)) == spaced(cells.take(n)) + cells[n] + seq![' '],
{
    assert(cells.take(n + 1).drop_last() =~= cells.take(n));
}

/// Taking one more line appends its text and a line feed.
proof fn lemma_stacked_next(lines: Seq<Seq<char>>, n: int)
    requires
        0 <= n < lines.len(),
    ensures
        stacked(lines.take(n + 1)) == stacked(lines.take(n)) + lines[n] + seq!['\n'],
{
    assert(lines.take(n + 1).drop_last() =~= lines.take(n));
}

/// The character of one decimal digit.
fn digit_char(d: usize) -> (c: char)
    requires
        d < 10,
    ensures
        c == digit(d as nat),
{
    if d == 0 {
        '0'
    } else if d == 1 {
        '1'
    } else if d == 2 {
        '2'
    } else if d == 3 {
        '3'
    } else if d == 4 {
        '4'
    } else if d == 5 {
        '5'
    } else if d == 6 {
        '6'
    } else if d == 7 {
        '7'
    } else if d == 8 {
        '8'
    } else {
        '9'
    }
}

/// Appends `n` in decimal to `out`.
pub(crate) fn push_decimal(out: &mut String, n: usize)
    ensures
        final(out)@ == old(out)@ + decimal(n as nat),
    decreases n,
{
    if n >= 10 {
        push_decimal(out, n / 10);
    }
    out.push(digit_char(n % 10));
    assert(out@ =~= old(out)@ + decimal(n as nat));
}

/// Appends `count` times `fill` to `out`.
fn push_repeated(out: &mut String, count: usize, fill: char)
    ensures
        final(out)@ == old(out)@ + Seq::new(count as nat, |i: int| fill),
{
    for made in 0..count
        invariant
            out@ == old(out)@ + Seq::new(made as nat, |i: int| fill),
    {
        out.push(fill);
        assert(out@ =~= old(out)@ + Seq::new((made + 1) as nat, |i: int| fill));
    }
}

/// Appends `text` to `out`, with `fill` in front of it where it is shorter
/// than `width`.
fn push_padded(out: &mut String, text: &String, width: usize, fill: char)
    ensures
        final(out)@ == old(out)@ + pad_left(text@, width as nat, fill),
{
    let used = text.as_str().unicode_len();
    if used < width {
        push_repeated(out, width - used, fill);
    }
    out.append(text.as_str());
    assert(out@ =~= old(out)@ + pad_left(text@, width as nat, fill));
}

/// Appends `n` in decimal to `out`, with `fill` in front of it where it has
/// fewer than `width` digits.
fn push_padded_decimal(out: &mut String, n: usize, width: usize, fill: char)
    ensures
        final(out)@ == old(out)@ + pad_left(decimal(n as nat), width as nat, fill),
{
    let mut digits = String::new();
    push_decimal(&mut digits, n);
    assert(digits@ =~= decimal(n as nat));
    push_padded(out, &digits, width, fill);
}

/// The glyph of one cell.
fn glyph_of(cell: Option<u8>) -> (c: char)
    ensures
        c == glyph(cell),
{
    match cell {
        Some(0) => '0',
        Some(1) => '1',
        Some(2) => '2',
        Some(3) => '3',
        Some(_) => '?',
        None => '-',
    }
}

/// Appends one row of the grid to `out`.
fn push_row(out: &mut String, board: &Board, row: usize)
    requires
        row < SIZE,
    ensures
        final(out)@ == old(out)@ + row_text(*board, row as int),
{
    let ghost cells = Seq::new(SIZE as nat, |c: int| seq![glyph(board[row as int][c])]);
    out.push(' ');
    assert(cells.take(0) =~= Seq::empty());
    for column in 0..SIZE
        invariant
            row < SIZE,
            cells == Seq::new(SIZE as nat, |c: int| seq![glyph(board[row as int][c])]),
            out@ == old(out)@ + seq![' '] + spaced(cells.take(column as int)),
    {
        out.push(glyph_of(board[row][column]));
        out.push(' ');
        proof {
            lemma_spaced_next(cells, column as int);
            assert(out@ =~= old(out)@ + seq![' '] + spaced(cells.take(column + 1)));
        }
    }
    assert(cells.take(SIZE as int) =~= cells);
    assert(out@ =~= old(out)@ + row_text(*board, row as int));
}

/// The grid as text: one line per row, each a space and then the glyph of
/// each cell with a space behind it.
pub fn print(board: &Board) -> (text: String)
    ensures
        text@ == board_text(*board),
{
    let ghost lines = Seq::new(SIZE as nat, |r: int| row_text(*board, r));
    let mut text = String::new();
    assert(lines.take(0) =~= Seq::empty());
    for row in 0..SIZE
        invariant
            lines == Seq::new(SIZE as nat, |r: int| row_text(*board, r)),
            text@ == stacked(lines.take(row as int)),
    {
        push_row(&mut text, board, row);
        text.push('\n');
        proof {
            lemma_stacked_next(lines, row as int);
        }
    }
    assert(lines.take(SIZE as int) =~= lines);
    text
}

/// Appends the two lines of column labels to `out`.
fn push_footer(out: &mut String, bottom: &Header)
    ensures
        final(out)@ == old(out)@ + footer_text(*bottom),
{
    let ghost points = Seq::new(
        SIZE as nat,
        |c: int| pad_left(decimal(bottom[c].0 as nat), 2, '0'),
    );
    let ghost voltorbs = Seq::new(
        SIZE as nat,
        |c: int| seq![' '] + pad_left(decimal(bottom[c].1 as nat), 1, ' '),
    );
    assert(points.take(0) =~= Seq::empty());
    for column in 0..SIZE
        invariant
            points == Seq::new(
                SIZE as nat,
                |c: int| pad_left(decimal(bottom[c].0 as nat), 2, '0'),
            ),
            out@ == old(out)@ + spaced(points.take(column as int)),
    {
        push_padded_decimal(out, bottom[column].0 as usize, 2, '0');
        out.push(' ');
        proof {
            lemma_spaced_next(points, column as int);
            assert(out@ =~= old(out)@ + spaced(points.take(column + 1)));
        }
    }
    assert(points.take(SIZE as int) =~= points);
    out.push('\n');
    let ghost middle = out@;
    assert(voltorbs.take(0) =~= Seq::empty());
    assert(out@ =~= middle + spaced(voltorbs.take(0)));
    for column in 0..SIZE
        invariant
            voltorbs == Seq::new(
                SIZE as nat,
                |c: int| seq![' '] + pad_left(decimal(bottom[c].1 as nat), 1, ' '),
            ),
            middle == old(out)@ + spaced(points) + seq!['\n'],
            out@ == middle + spaced(voltorbs.take(column as int)),
    {
        out.push(' ');
        push_padded_decimal(out, bottom[column].1 as usize, 1, ' ');
        out.push(' ');
        proof {
            lemma_spaced_next(voltorbs, column as int);
            assert(out@ =~= middle + spaced(voltorbs.take(column + 1)));
        }
    }
    assert(voltorbs.take(SIZE as int) =~= voltorbs);
    assert(out@ =~= old(out)@ + footer_text(*bottom));
}

/// The grid as text with its labels: to the right of each row the label of
/// the row, and below the grid, after an empty line, the labels of the
/// columns.
pub fn print_with_headers(right: &Header, bottom: &Header, board: &Board) -> (text: String)
    ensures
        text@ == labelled_board_text(*right, *bottom, *board),
{
    let ghost lines = Seq::new(SIZE as nat, |r: int| labelled_row_text(*right, *board, r));
    let mut text = String::new();
    assert(lines.take(0) =~= Seq::empty());
    for row in 0..SIZE
        invariant
            lines == Seq::new(SIZE as nat, |r: int| labelled_row_text(*right, *board, r)),
            text@ == stacked(lines.take(row as int)),
    {
        let ghost above = text@;
        push_row(&mut text, board, row);
        text.push(' ');
        text.push(' ');
        text.push(' ');
        push_padded_decimal(&mut text, right[row].0 as usize, 2, '0');
        text.push(' ');
        push_decimal(&mut text, right[row].1 as usize);
        text.push('\n');
        proof {
            lemma_stacked_next(lines, row as int);
            assert(text@ =~= above + labelled_row_text(*right, *board, row as int) + seq!['\n']);
        }
    }
    assert(lines.take(SIZE as int) =~= lines);
    text.push('\n');
    push_footer(&mut text, bottom);
    text
}

/// The decimal texts of the values of `values` below `bound`, in
/// ascending order and with nothing between them.
pub open spec fn listed(values: Set<u8>, bound: int) -> Seq<char>
    decreases bound,
{
    if bound <= 0 {
        Seq::empty()
    } else {
        listed(values, bound - 1) + if values.contains((bound - 1) as u8) {
            decimal((bound - 1) as nat)
        } else {
            Seq::empty()
        }
    }
}

/// What the table of voltorbs shows for one cell: the count, or a dash
/// where the cell is revealed or can hold no multiplier.
pub open spec fn voltorb_cell(voltorbs: usize, multipliers: usize, game: Option<u8>) -> Seq<char> {
    pad_left(
        if game is Some || multipliers < 1 {
            seq!['-']
        } else {
            decimal(voltorbs as nat)
        },
        4,
        ' ',
    )
}

/// What the table of multipliers shows for one cell: the count, or a dash
/// where the cell is revealed.
pub open spec fn multiplier_cell(multipliers: usize, game: Option<u8>) -> Seq<char> {
    pad_left(
        if game is Some {
            seq!['-']
        } else {
            decimal(multipliers as nat)
        },
        4,
        ' ',
    )
}

/// What the table of possible values shows for one cell.
pub open spec fn possible_cell(values: Set<u8>) -> Seq<char> {
    pad_left(listed(values, 256), 3, ' ')
}

/// What the table of the recommendation shows for one cell.
pub open spec fn recommendation_cell(choice: Option<(usize, usize)>, r: int, c: int) -> Seq<char> {
    if choice matches Some(cell) && cell.0 == r && cell.1 == c {
        seq!['X']
    } else {
        seq!['-']
    }
}

/// The table of voltorbs, one line per row.
pub open spec fn voltorb_table_text(voltorbs: Counts, multipliers: Counts, game: Board) -> Seq<
    char,
> {
    stacked(
        Seq::new(
            SIZE as nat,
            |r: int|
                spaced(
                    Seq::new(
                        SIZE as nat,
                        |c: int| voltorb_cell(voltorbs[r][c], multipliers[r][c], game[r][c]),
                    ),
                ),
        ),
    )
}

/// The table of multipliers, one line per row.
pub open spec fn multiplier_table_text(multipliers: Counts, game: Board) -> Seq<char> {
    stacked(
        Seq::new(
            SIZE as nat,
            |r: int|
                spaced(Seq::new(SIZE as nat, |c: int| multiplier_cell(multipliers[r][c], game[r][c]))),
        ),
    )
}

/// The table of possible values, one line per row.
pub open spec fn possible_table_text(possible: Possible) -> Seq<char> {
    stacked(
        Seq::new(
            SIZE as nat,
            |r: int| spaced(Seq::new(SIZE as nat, |c: int| possible_cell(possible[r][c]@))),
        ),
    )
}

/// The table of the recommendation, one line per row.
pub open spec fn recommendation_table_text(choice: Option<(usize, usize)>) -> Seq<char> {
    stacked(
        Seq::new(
            SIZE as nat,
            |r: int| spaced(Seq::new(SIZE as nat, |c: int| recommendation_cell(choice, r, c))),
        ),
    )
}

/// Appends a dash, set to the right of `width` characters.
fn push_dash(out: &mut String, width: usize)
    ensures
        final(out)@ == old(out)@ + pad_left(seq!['-'], width as nat, ' '),
{
    if 1 < width {
        push_repeated(out, width - 1, ' ');
    }
    out.push('-');
    assert(out@ =~= old(out)@ + pad_left(seq!['-'], width as nat, ' '));
}

/// In how many solutions each hidden cell that can hold a multiplier is a
/// voltorb. Each count is set to the right of four characters and followed
/// by a space; a dash stands for a cell that `game_board` shows, or that
/// holds a multiplier in no solution.
pub fn voltorb_table(voltorbs: &Counts, multipliers: &Counts, game_board: &Board) -> (text: String)
    ensures
        text@ == voltorb_table_text(*voltorbs, *multipliers, *game_board),
{
    let ghost lines = Seq::new(
        SIZE as nat,
        |r: int|
            spaced(
                Seq::new(
                    SIZE as nat,
                    |c: int| voltorb_cell(voltorbs[r][c], multipliers[r][c], game_board[r][c]),
                ),
            ),
    );
    let mut text = String::new();
    assert(lines.take(0) =~= Seq::empty());
    for row in 0..SIZE
        invariant
            lines.len() == SIZE,
            forall|r: int|
                0 <= r < SIZE ==> #[trigger] lines[r] == spaced(
                    Seq::new(
                        SIZE as nat,
                        |c: int| voltorb_cell(voltorbs[r][c], multipliers[r][c], game_board[r][c]),
                    ),
                ),
            text@ == stacked(lines.take(row as int)),
    {
        let ghost above = text@;
        let ghost cells = Seq::new(
            SIZE as nat,
            |c: int|
                voltorb_cell(
                    voltorbs[row as int][c],
                    multipliers[row as int][c],
                    game_board[row as int][c],
                ),
        );
        assert(cells.take(0) =~= Seq::empty());
        for column in 0..SIZE
            invariant
                row < SIZE,
                cells.len() == SIZE,
                forall|c: int|
                    0 <= c < SIZE ==> #[trigger] cells[c] == voltorb_cell(
                        voltorbs[row as int][c],
                        multipliers[row as int][c],
                        game_board[row as int][c],
                    ),
                text@ == above + spaced(cells.take(column as int)),
        {
            if game_board[row][column].is_some() || multipliers[row][column] < 1 {
                push_dash(&mut text, 4);
            } else {
                push_padded_decimal(&mut text, voltorbs[row][column], 4, ' ');
            }
            text.push(' ');
            proof {
                lemma_spaced_next(cells, column as int);
                assert(text@ =~= above + spaced(cells.take(column + 1)));
            }
        }
        text.push('\n');
        proof {
            assert(cells.take(SIZE as int) =~= cells);
            lemma_stacked_next(lines, row as int);
        }
    }
    assert(lines.take(SIZE as int) =~= lines);
    text
}

/// In how many solutions each hidden cell holds a multiplier, laid out as
/// the table of voltorbs; a dash stands for a cell that `game_board` shows.
pub fn multiplier_table(multipliers: &Counts, game_board: &Board) -> (text: String)
    ensures
        text@ == multiplier_table_text(*multipliers, *game_board),
{
    let ghost lines = Seq::new(
        SIZE as nat,
        |r: int|
            spaced(
                Seq::new(SIZE as nat, |c: int| multiplier_cell(multipliers[r][c], game_board[r][c])),
            ),
    );
    let mut text = String::new();
    assert(lines.take(0) =~= Seq::empty());
    for row in 0..SIZE
        invariant
            lines.len() == SIZE,
            forall|r: int|
                0 <= r < SIZE ==> #[trigger] lines[r] == spaced(
                    Seq::new(
                        SIZE as nat,
                        |c: int| multiplier_cell(multipliers[r][c], game_board[r][c]),
                    ),
                ),
            text@ == stacked(lines.take(row as int)),
    {
        let ghost above = text@;
        let ghost cells = Seq::new(
            SIZE as nat,
            |c: int| multiplier_cell(multipliers[row as int][c], game_board[row as int][c]),
        );
        assert(cells.take(0) =~= Seq::empty());
        for column in 0..SIZE
            invariant
                row < SIZE,
                cells.len() == SIZE,
                forall|c: int|
                    0 <= c < SIZE ==> #[trigger] cells[c] == multiplier_cell(
                        multipliers[row as int][c],
                        game_board[row as int][c],
                    ),
                text@ == above + spaced(cells.take(column as int)),
        {
            match game_board[row][column] {
                None => {
                    push_padded_decimal(&mut text, multipliers[row][column], 4, ' ');
                },
                Some(_) => {
                    push_dash(&mut text, 4);
                },
            }
            text.push(' ');
            proof {
                lemma_spaced_next(cells, column as int);
                assert(text@ =~= above + spaced(cells.take(column + 1)));
            }
        }
        text.push('\n');
        proof {
            assert(cells.take(SIZE as int) =~= cells);
            lemma_stacked_next(lines, row as int);
        }
    }
    assert(lines.take(SIZE as int) =~= lines);
    text
}

/// The values of `values` in ascending order, each in decimal.
fn list_values(values: &BTreeSet<u8>) -> (text: String)
    ensures
        text@ == listed(values@, 256),
{
    broadcast use vstd::std_specs::btree::group_btree_axioms;

    let mut text = String::new();
    let mut value: usize = 0;
    while value < 256
        invariant
            value <= 256,
            text@ == listed(values@, value as int),
        decreases 256 - value,
    {
        let candidate = value as u8;
        if values.contains(&candidate) {
            push_decimal(&mut text, value);
        }
        value += 1;
    }
    text
}

/// The values that each cell takes in the solutions, in ascending order and
/// set to the right of three characters, each cell followed by a space.
pub fn possible_table(possible: &Possible) -> (text: String)
    ensures
        text@ == possible_table_text(*possible),
{
    let ghost lines = Seq::new(
        SIZE as nat,
        |r: int| spaced(Seq::new(SIZE as nat, |c: int| possible_cell(possible[r][c]@))),
    );
    let mut text = String::new();
    assert(lines.take(0) =~= Seq::empty());
    for row in 0..SIZE
        invariant
            lines.len() == SIZE,
            forall|r: int|
                0 <= r < SIZE ==> #[trigger] lines[r] == spaced(
                    Seq::new(SIZE as nat, |c: int| possible_cell(possible[r][c]@)),
                ),
            text@ == stacked(lines.take(row as int)),
    {
        let ghost above = text@;
        let ghost cells = Seq::new(SIZE as nat, |c: int| possible_cell(possible[row as int][c]@));
        assert(cells.take(0) =~= Seq::empty());
        for column in 0..SIZE
            invariant
                row < SIZE,
                cells.len() == SIZE,
                forall|c: int|
                    0 <= c < SIZE ==> #[trigger] cells[c] == possible_cell(possible[row as int][c]@),
                text@ == above + spaced(cells.take(column as int)),
        {
            let values = list_values(&possible[row][column]);
            push_padded(&mut text, &values, 3, ' ');
            text.push(' ');
            proof {
                lemma_spaced_next(cells, column as int);
                assert(text@ =~= above + spaced(cells.take(column + 1)));
            }
        }
        text.push('\n');
        proof {
            assert(cells.take(SIZE as int) =~= cells);
            lemma_stacked_next(lines, row as int);
        }
    }
    assert(lines.take(SIZE as int) =~= lines);
    text
}

/// The grid with an `X` at the recommended cell and a dash at every other,
/// each followed by a space.
pub fn recommendation_table(choice: Option<(usize, usize)>) -> (text: String)
    ensures
        text@ == recommendation_table_text(choice),
{
    let ghost lines = Seq::new(
        SIZE as nat,
        |r: int| spaced(Seq::new(SIZE as nat, |c: int| recommendation_cell(choice, r, c))),
    );
    let mut text = String::new();
    assert(lines.take(0) =~= Seq::empty());
    for row in 0..SIZE
        invariant
            lines.len() == SIZE,
            forall|r: int|
                0 <= r < SIZE ==> #[trigger] lines[r] == spaced(
                    Seq::new(SIZE as nat, |c: int| recommendation_cell(choice, r, c)),
                ),
            text@ == stacked(lines.take(row as int)),
    {
        let ghost above = text@;
        let ghost cells = Seq::new(SIZE as nat, |c: int| recommendation_cell(choice, row as int, c));
        assert(cells.take(0) =~= Seq::empty());
        for column in 0..SIZE
            invariant
                row < SIZE,
                cells.len() == SIZE,
                forall|c: int|
                    0 <= c < SIZE ==> #[trigger] cells[c] == recommendation_cell(
                        choice,
                        row as int,
                        c,
                    ),
                text@ == above + spaced(cells.take(column as int)),
        {
            let chosen = match choice {
                Some(cell) => cell.0 == row && cell.1 == column,
                None => false,
            };
            if chosen {
                text.push('X');
            } else {
                text.push('-');
            }
            text.push(' ');
            proof {
                lemma_spaced_next(cells, column as int);
                assert(text@ =~= above + spaced(cells.take(column + 1)));
            }
        }
        text.push('\n');
        proof {
            assert(cells.take(SIZE as int) =~= cells);
            lemma_stacked_next(lines, row as int);
        }
    }
    assert(lines.take(SIZE as int) =~= lines);
    text
}

} // verus!
