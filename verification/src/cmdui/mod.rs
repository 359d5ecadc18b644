//! A character screen for a terminal: what is on it, where its cursor
//! stands, and how a line of input is taken through it.

pub mod entry;
pub mod io;

use vstd::prelude::*;
use crate::error::Error;
use self::io::{is_writable, writable};

verus! {

/// What a cell of the screen holds before anything is written to it.
pub const EMPTY: char = ' ';

/// A screen of `height` rows of `width` cells, all of them empty.
pub open spec fn blank(width: nat, height: nat) -> Seq<Seq<char>> {
    Seq::new(height, |r: int| Seq::new(width, |c: int| EMPTY))
}

/// Whether `cells` has `height` rows of `width` cells each.
pub open spec fn has_shape(cells: Seq<Seq<char>>, width: nat, height: nat) -> bool {
    &&& cells.len() == height
    &&& forall|r: int| 0 <= r < height ==> (#[trigger] cells[r]).len() == width
}

/// `cells` with `c` in the cell at `row` and `column`.
pub open spec fn put(cells: Seq<Seq<char>>, row: int, column: int, c: char) -> Seq<Seq<char>> {
    cells.update(row, cells[row].update(column, c))
}

/// What one character does to the screen and to the pen that writes it. A
/// character that can be shown goes to the cell under the pen, if the pen
/// is on the screen, and moves the pen one cell to the right. A line feed
/// takes the pen to the next row, under the column in which the text
/// began. Any other character is dropped.
pub open spec fn draw_step(
    pen: (Seq<Seq<char>>, int, int),
    width: int,
    height: int,
    home: int,
    c: char,
) -> (Seq<Seq<char>>, int, int) {
    let (cells, row, column) = pen;
    if c == '\n' {
        (cells, row + 1, home)
    } else if writable(c) && 0 <= row < height && 0 <= column < width {
        (put(cells, row, column, c), row, column + 1)
    } else {
        pen
    }
}

/// The screen and the pen after the first `n` characters of `text` have
/// been written from `loc` on.
pub open spec fn draw(
    cells: Seq<Seq<char>>,
    width: int,
    height: int,
    loc: (int, int),
    text: Seq<char>,
    n: int,
) -> (Seq<Seq<char>>, int, int)
    decreases n,
{
    if n <= 0 {
        (cells, loc.0, loc.1)
    } else {
        draw_step(draw(cells, width, height, loc, text, n - 1), width, height, loc.1, text[n - 1])
    }
}

/// `cells` after `text` has been written onto it from `loc` on.
pub open spec fn drawn(
    cells: Seq<Seq<char>>,
    width: int,
    height: int,
    loc: (int, int),
    text: Seq<char>,
) -> Seq<Seq<char>> {
    draw(cells, width, height, loc, text, text.len() as int).0
}

/// The screen as the program sees it: a buffer of characters and a cursor.
pub struct UIModel {
    width: usize,
    height: usize,
    buffer: Vec<Vec<char>>,
    cursor: Option<(usize, usize)>,
}

impl UIModel {
    /// The buffer has `height` rows of `width` cells.
    #[verifier::type_invariant]
    spec fn well_formed(&self) -> bool {
        &&& self.buffer@.len() == self.height
        &&& forall|r: int| 0 <= r < self.height ==> (#[trigger] self.buffer@[r])@.len() == self.width
    }

    /// The number of cells in a row.
    pub closed spec fn width(&self) -> nat {
        self.width as nat
    }

    /// The number of rows.
    pub closed spec fn height(&self) -> nat {
        self.height as nat
    }

    /// What the screen holds, row by row.
    pub closed spec fn cells(&self) -> Seq<Seq<char>> {
        Seq::new(self.buffer@.len(), |r: int| self.buffer@[r]@)
    }

    /// Where the cursor stands, if it has been set.
    pub closed spec fn cursor(&self) -> Option<(usize, usize)> {
        self.cursor
    }

    /// Whether the screen holds `height()` rows of `width()` cells each. Every
    /// screen that the program can hold does.
    pub open spec fn shaped(&self) -> bool {
        has_shape(self.cells(), self.width(), self.height())
    }

    /// An empty screen of the given size, with no cursor.
    pub fn new(width: usize, height: usize) -> (model: UIModel)
        ensures
            model.width() == width,
            model.height() == height,
            model.cells() == blank(width as nat, height as nat),
            model.cursor() is None,
            model.shaped(),
    {
        let buffer = blank_buffer(width, height);
        let model = UIModel { width, height, buffer, cursor: None };
        assert(model.cells() =~~= blank(width as nat, height as nat));
        model
    }

    /// Where the cursor stands, if it has been set.
    pub fn get_cursor(&self) -> (cursor: Option<(usize, usize)>)
        ensures
            cursor == self.cursor(),
            self.shaped(),
    {
        proof {
            use_type_invariant(self);
        }
        self.cursor
    }

    /// Puts the cursor at row `height` and column `width`, on the screen or
    /// off it. This never fails.
    pub fn set_cursor(&mut self, height: usize, width: usize) -> (done: Result<(), Error>)
        ensures
            done is Ok,
            final(self).cursor() == Some((height, width)),
            final(self).cells() == old(self).cells(),
            final(self).width() == old(self).width(),
            final(self).height() == old(self).height(),
            final(self).shaped(),
    {
        proof {
            use_type_invariant(&*self);
        }
        self.cursor = Some((height, width));
        Ok(())
    }

    /// Writes `string` onto the screen from `loc` on, as `drawn` describes:
    /// what falls off the screen is lost, and what cannot be shown is
    /// dropped. The cursor stays where it is. This never fails.
    pub fn render(&mut self, loc: (usize, usize), string: String) -> (done: Result<(), Error>)
        ensures
            done is Ok,
            final(self).cells() == drawn(
                old(self).cells(),
                old(self).width() as int,
                old(self).height() as int,
                (loc.0 as int, loc.1 as int),
                string@,
            ),
            final(self).cursor() == old(self).cursor(),
            final(self).width() == old(self).width(),
            final(self).height() == old(self).height(),
            final(self).shaped(),
    {
        proof {
            use_type_invariant(&*self);
        }
        let ghost start = self.cells();
        let ghost place = (loc.0 as int, loc.1 as int);
        let width = self.width;
        let height = self.height;
        // The pen, as long as it is on a row of the screen; `below` once it
        // has left the last row, from where no line feed brings it back.
        let mut row = loc.0;
        let mut column = loc.1;
        let mut below = loc.0 >= height;
        let ghost mut pen_row = loc.0 as int;
        for c in chars: string.as_str().chars()
            invariant
                chars.seq() == string@,
                width == self.width,
                height == self.height,
                self.width == old(self).width,
                self.height == old(self).height,
                self.cursor == old(self).cursor,
                self.buffer@.len() == height,
                forall|r: int| 0 <= r < height ==> (#[trigger] self.buffer@[r])@.len() == width,
                start == old(self).cells(),
                place == (loc.0 as int, loc.1 as int),
                below == (pen_row >= height),
                !below ==> row == pen_row,
                pen_row >= 0,
                draw(start, width as int, height as int, place, string@, chars.index()) == (
                    self.cells(),
                    pen_row,
                    column as int,
                ),
        {
            let ghost before = self.cells();
            let ghost n = chars.index();
            assert(c == string@[n]);
            if is_writable(c) && !below && column < width {
                write_cell(&mut self.buffer, row, column, c);
                column = column + 1;
                proof {
                    assert(self.cells() =~~= put(before, pen_row, column - 1, c));
                }
            }
            if c == '\n' {
                if !below {
                    row = row + 1;
                    below = row >= height;
                }
                column = loc.1;
                proof {
                    pen_row = pen_row + 1;
                }
            }
            proof {
                assert(self.cells() =~~= draw(
                    start,
                    width as int,
                    height as int,
                    place,
                    string@,
                    n + 1,
                ).0);
            }
        }
        Ok(())
    }

    /// Empties every cell. The cursor stays where it is.
    pub fn clear(&mut self)
        ensures
            final(self).cells() == blank(old(self).width(), old(self).height()),
            final(self).cursor() == old(self).cursor(),
            final(self).width() == old(self).width(),
            final(self).height() == old(self).height(),
            final(self).shaped(),
    {
        proof {
            use_type_invariant(&*self);
        }
        self.buffer = blank_buffer(self.width, self.height);
        assert(self.cells() =~~= blank(old(self).width(), old(self).height()));
    }

    /// The rows of the screen, for `io::render` to paint.
    pub fn buffer(&self) -> (rows: &Vec<Vec<char>>)
        ensures
            rows@.len() == self.height(),
            forall|r: int| 0 <= r < rows@.len() ==> (#[trigger] rows@[r])@ == self.cells()[r],
            forall|r: int| 0 <= r < rows@.len() ==> (#[trigger] rows@[r])@.len() == self.width(),
            self.shaped(),
    {
        proof {
            use_type_invariant(self);
        }
        &self.buffer
    }
}

/// Puts `c` into the cell at `row` and `column`.
fn write_cell(buffer: &mut Vec<Vec<char>>, row: usize, column: usize, c: char)
    requires
        row < old(buffer)@.len(),
        column < old(buffer)@[row as int]@.len(),
    ensures
        final(buffer)@.len() == old(buffer)@.len(),
        final(buffer)@[row as int]@ == old(buffer)@[row as int]@.update(column as int, c),
        forall|r: int|
            0 <= r < old(buffer)@.len() && r != row ==> #[trigger] final(buffer)@[r] == old(
                buffer,
            )@[r],
    no_unwind
{
    buffer[row][column] = c;
}

/// A buffer of `height` rows of `width` empty cells.
fn blank_buffer(width: usize, height: usize) -> (buffer: Vec<Vec<char>>)
    ensures
        buffer@.len() == height,
        forall|r: int|
            0 <= r < height ==> (#[trigger] buffer@[r])@ == Seq::new(width as nat, |c: int| EMPTY),
{
    let mut buffer: Vec<Vec<char>> = Vec::new();
    for r in 0..height
        invariant
            buffer@.len() == r,
            forall|i: int|
                0 <= i < r ==> (#[trigger] buffer@[i])@ == Seq::new(width as nat, |c: int| EMPTY),
    {
        let mut cells: Vec<char> = Vec::new();
        for c in 0..width
            invariant
                cells@ == Seq::new(c as nat, |i: int| EMPTY),
        {
            cells.push(EMPTY);
            assert(cells@ =~= Seq::new((c + 1) as nat, |i: int| EMPTY));
        }
        buffer.push(cells);
    }
    buffer
}

} // verus!
