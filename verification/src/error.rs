//! The ways in which an operation on a log fails.

use vstd::prelude::*;

verus! {

/// Why an operation on a log was refused.
#[derive(Clone, Copy, Debug, PartialEq, Eq, Structural)]
pub enum LogError {
    /// The bytes end before a field that has to be there: the creation time,
    /// a label's length, or a label.
    Io,
    /// The timestamp of a new entry is not after the log's creation time.
    Validation,
    /// A label is not valid UTF-8.
    Format,
    /// A timestamp that is to be shown has no date: its year has more than
    /// four digits or a sign, or no offset of less than a day was given for
    /// it.
    Date,
}

impl LogError {
    /// The sentence that tells a user what went wrong.
    pub open spec fn text(self) -> Seq<char> {
        match self {
            LogError::Io => "log ends inside a record"@,
            LogError::Validation => "timestamp not after epoch"@,
            LogError::Format => "label is not valid UTF-8"@,
            LogError::Date => "timestamp cannot be shown as a date"@,
        }
    }

    /// Gives the sentence that tells a user what went wrong.
    pub fn message(&self) -> (message: &'static str)
        ensures
            message@ == self.text(),
    {
        match self {
            LogError::Io => "log ends inside a record",
            LogError::Validation => "timestamp not after epoch",
            LogError::Format => "label is not valid UTF-8",
            LogError::Date => "timestamp cannot be shown as a date",
        }
    }
}

} // verus!
