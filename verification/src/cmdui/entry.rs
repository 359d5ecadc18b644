//! Taking a line of input, key by key, and showing it on the screen while
//! it is typed.

use vstd::prelude::*;
use crate::error::Error;
use crate::cmdui::{UIModel, drawn};

verus! {

/// A key, as far as taking a line tells keys apart.
#[derive(Debug, Clone, Copy, PartialEq, Eq)]
pub enum Key {
    /// A key that stands for a character; the line feed ends the line.
    Char(char),
    /// The key that takes the last character back.
    Backspace,
    /// Any other key.
    Other,
}

/// `cells` with a space written at each column from `high` down to `low`
/// of row `row`, as far as these lie on the screen.
pub open spec fn wiped(
    cells: Seq<Seq<char>>,
    width: int,
    height: int,
    row: int,
    low: int,
    high: int,
) -> Seq<Seq<char>>
    decreases high - low + 1,
{
    if high < low {
        cells
    } else {
        wiped(drawn(cells, width, height, (row, high), seq![' ']), width, height, row, low, high - 1)
    }
}

/// A line of input in the making: where on the screen it begins, what has
/// been typed, and where the cursor stands.
pub struct TextEntry {
    loc: (usize, usize),
    cursor: (usize, usize),
    command: String,
}

impl TextEntry {
    /// The cursor stands behind what has been typed.
    #[verifier::type_invariant]
    spec fn well_formed(&self) -> bool {
        &&& self.cursor.0 == self.loc.0
        &&& self.cursor.1 == self.loc.1 + self.command@.len()
    }

    /// Where the line begins.
    pub closed spec fn loc(&self) -> (usize, usize) {
        self.loc
    }

    /// Where the cursor stands.
    pub closed spec fn cursor(&self) -> (usize, usize) {
        self.cursor
    }

    /// What has been typed.
    pub closed spec fn command(&self) -> Seq<char> {
        self.command@
    }

    /// Where the cursor stands.
    pub fn position(&self) -> (cursor: (usize, usize))
        ensures
            cursor == self.cursor(),
            cursor.0 == self.loc().0,
            cursor.1 == self.loc().1 + self.command().len(),
    {
        proof {
            use_type_invariant(self);
        }
        self.cursor
    }

    /// Begins a line at `loc` and puts the cursor of the screen there.
    pub fn begin(model: &mut UIModel, loc: (usize, usize)) -> (begun: Result<TextEntry, Error>)
        ensures
            begun matches Ok(entry) && entry.loc() == loc && entry.cursor() == loc
                && entry.command() == Seq::<char>::empty(),
            final(model).cursor() == Some(loc),
            final(model).cells() == old(model).cells(),
            final(model).width() == old(model).width(),
            final(model).height() == old(model).height(),
            final(model).shaped(),
    {
        let set = model.set_cursor(loc.0, loc.1);
        if let Err(error) = set {
            return Err(error);
        }
        let cursor = match model.get_cursor() {
            Some(cursor) => cursor,
            None => {
                return Err(Error::new("Cursor not set."));
            },
        };
        Ok(TextEntry { loc, cursor, command: String::new() })
    }

    /// Takes one key. A line feed ends the line: the cursor of the screen
    /// goes back to where the line begins, and the result is `true`. Any
    /// other character is added to the line, which is written anew, and
    /// the cursor moves one cell to the right. Backspace takes the last
    /// character back, writes a space over it and moves the cursor one cell
    /// to the left; at the beginning of the line the space goes where the
    /// cursor stands. Other keys do nothing.
    pub fn press(&mut self, model: &mut UIModel, key: Key) -> (done: Result<bool, Error>)
        requires
            key matches Key::Char(c) && c != '\n' ==> old(self).cursor().1 < usize::MAX,
        ensures
            final(self).loc() == old(self).loc(),
            final(model).width() == old(model).width(),
            final(model).height() == old(model).height(),
            final(model).shaped(),
            match key {
                Key::Char(c) => if c == '\n' {
                    &&& done == Ok::<bool, Error>(true)
                    &&& final(self).command() == old(self).command()
                    &&& final(self).cursor() == old(self).cursor()
                    &&& final(model).cursor() == Some(old(self).loc())
                    &&& final(model).cells() == old(model).cells()
                } else {
                    &&& done == Ok::<bool, Error>(false)
                    &&& final(self).command() == old(self).command().push(c)
                    &&& final(self).cursor() == (old(self).cursor().0, (old(self).cursor().1 + 1) as usize)
                    &&& final(model).cursor() == Some(final(self).cursor())
                    &&& final(model).cells() == drawn(
                        old(model).cells(),
                        old(model).width() as int,
                        old(model).height() as int,
                        (old(self).loc().0 as int, old(self).loc().1 as int),
                        final(self).command(),
                    )
                },
                Key::Backspace => {
                    &&& done == Ok::<bool, Error>(false)
                    &&& final(self).command() == if old(self).command().len() > 0 {
                        old(self).command().drop_last()
                    } else {
                        old(self).command()
                    }
                    &&& final(self).cursor() == if old(self).command().len() > 0 {
                        (old(self).cursor().0, (old(self).cursor().1 - 1) as usize)
                    } else {
                        old(self).cursor()
                    }
                    &&& final(model).cursor() == Some(final(self).cursor())
                    &&& final(model).cells() == drawn(
                        old(model).cells(),
                        old(model).width() as int,
                        old(model).height() as int,
                        (final(self).cursor().0 as int, final(self).cursor().1 as int),
                        seq![' '],
                    )
                },
                Key::Other => {
                    &&& done == Ok::<bool, Error>(false)
                    &&& final(self).command() == old(self).command()
                    &&& final(self).cursor() == old(self).cursor()
                    &&& final(model).cursor() == old(model).cursor()
                    &&& final(model).cells() == old(model).cells()
                },
            },
    {
        proof {
            use_type_invariant(&*self);
            use_type_invariant(&*model);
        }
        match key {
            Key::Char('\n') => {
                let set = model.set_cursor(self.loc.0, self.loc.1);
                if let Err(error) = set {
                    return Err(error);
                }
                Ok(true)
            },
            Key::Char(c) => {
                let cursor = (self.cursor.0, self.cursor.1 + 1);
                let set = model.set_cursor(cursor.0, cursor.1);
                if let Err(error) = set {
                    return Err(error);
                }
                let mut command = self.command.clone();
                command.push(c);
                let shown = model.render(self.loc, command.clone());
                if let Err(error) = shown {
                    return Err(error);
                }
                *self = TextEntry { loc: self.loc, cursor, command };
                Ok(false)
            },
            Key::Backspace => {
                let mut cursor = self.cursor;
                if cursor.1 > self.loc.1 {
                    cursor = (cursor.0, cursor.1 - 1);
                }
                let shown = model.render(cursor, space());
                if let Err(error) = shown {
                    return Err(error);
                }
                let set = model.set_cursor(cursor.0, cursor.1);
                if let Err(error) = set {
                    return Err(error);
                }
                let mut command = self.command.clone();
                command.pop();
                *self = TextEntry { loc: self.loc, cursor, command };
                Ok(false)
            },
            Key::Other => Ok(false),
        }
    }

    /// Ends the line and hands over what was typed. The cursor of the
    /// screen goes back to where the line begins, and the line is wiped off
    /// the screen, from the cell under the cursor back to its first.
    pub fn finish(self, model: &mut UIModel) -> (typed: Result<String, Error>)
        ensures
            typed matches Ok(command) && command@ == self.command(),
            final(model).cursor() == Some(self.loc()),
            final(model).cells() == wiped(
                old(model).cells(),
                old(model).width() as int,
                old(model).height() as int,
                self.loc().0 as int,
                self.loc().1 as int,
                self.cursor().1 as int,
            ),
            final(model).width() == old(model).width(),
            final(model).height() == old(model).height(),
            final(model).shaped(),
    {
        proof {
            use_type_invariant(&self);
        }
        let loc = self.loc;
        let mut cursor = self.cursor;
        let set = model.set_cursor(loc.0, loc.1);
        if let Err(error) = set {
            return Err(error);
        }
        let shown = model.render(cursor, space());
        if let Err(error) = shown {
            return Err(error);
        }
        while cursor.1 > loc.1
            invariant
                cursor.0 == loc.0,
                loc.1 <= cursor.1,
                model.width() == old(model).width(),
                model.height() == old(model).height(),
                model.cursor() == Some(loc),
                model.shaped(),
                wiped(
                    model.cells(),
                    model.width() as int,
                    model.height() as int,
                    loc.0 as int,
                    loc.1 as int,
                    cursor.1 - 1,
                ) == wiped(
                    old(model).cells(),
                    old(model).width() as int,
                    old(model).height() as int,
                    loc.0 as int,
                    loc.1 as int,
                    self.cursor.1 as int,
                ),
            decreases cursor.1 - loc.1,
        {
            cursor.1 -= 1;
            let shown = model.render(cursor, space());
            if let Err(error) = shown {
                return Err(error);
            }
        }
        Ok(self.command)
    }
}

/// A text of one space.
fn space() -> (text: String)
    ensures
        text@ == seq![' '],
{
    let mut text = String::new();
    text.push(' ');
    assert(text@ =~= seq![' ']);
    text
}

} // verus!
