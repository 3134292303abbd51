pub mod codec;
pub mod date;
pub mod menu;
pub mod store;
pub mod task;
pub mod text;

use vstd::prelude::*;

verus! {

/// The failure taxonomy of the to-do list library.
///
/// `ParseError` is a non-numeric menu choice or task index, `NotFound` an
/// index outside the current list, `DateFormatError` a malformed due-date
/// string, and `IoError` a filesystem failure while loading or saving
/// (raised only by the unverified shell around the library).
#[derive(Debug, Clone, Copy, PartialEq, Eq, Structural)]
pub enum TodoError {
    ParseError,
    NotFound,
    DateFormatError,
    IoError,
}

impl TodoError {
    /// The user-visible diagnostic for this error.
    pub open spec fn message_spec(self) -> Seq<char> {
        match self {
            TodoError::ParseError => "Invalid number."@,
            TodoError::NotFound => "Task not found."@,
            TodoError::DateFormatError => "Invalid date format. Please enter in YYYY-MM-DD format."@,
            TodoError::IoError => "Failed to save tasks."@,
        }
    }

    pub fn message(&self) -> (r: &'static str)
        ensures
            r@ == self.message_spec(),
    {
        match self {
            TodoError::ParseError => "Invalid number.",
            TodoError::NotFound => "Task not found.",
            TodoError::DateFormatError => "Invalid date format. Please enter in YYYY-MM-DD format.",
            TodoError::IoError => "Failed to save tasks.",
        }
    }
}

} // verus!
