//! The failures that the library reports.

use vstd::prelude::*;
use vstd::string::*;
use std::num::ParseIntError;

verus! {

/// The failure of `str::parse` on a text that is no number of the type
/// asked for. The library hands such a value on as it got it.
#[verifier::external_type_specification]
#[verifier::external_body]
pub struct ExParseIntError(ParseIntError);

/// A failure.
#[derive(Debug, PartialEq, Eq)]
pub enum Error {
    /// A failure that the library names itself, with its text.
    Custom(String),
    /// A text that was to be a number and is none.
    Plain(ParseIntError),
}

impl Error {
    /// Whether this is a failure that the library names itself, with `text`
    /// as its text.
    pub open spec fn is_custom(self, text: Seq<char>) -> bool {
        self matches Error::Custom(message) && message@ == text
    }

    /// A failure that the library names itself, with `string` as its text.
    pub fn new(string: &str) -> (error: Error)
        ensures
            error.is_custom(string@),
    {
        Error::Custom(string.to_owned())
    }

    /// The text that describes the failure: the text of a failure of the
    /// library's own, the message of the standard library else.
    pub fn message(&self) -> (text: String)
        ensures
            match *self {
                Error::Custom(message) => text@ == message@,
                Error::Plain(error) => to_string_from_display_ensures(&error, text),
            },
    {
        match self {
            Error::Custom(message) => message.clone(),
            Error::Plain(error) => error.to_string(),
        }
    }
}

} // verus!
