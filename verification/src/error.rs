use vstd::prelude::*;

verus! {

/// Why the contents of a `/proc` file could not be read as the expected format.
///
/// Lines are counted from 0, in the order `BufRead::lines` yields them.
#[derive(Debug, PartialEq, Eq)]
pub enum InternalError {
    /// The line has fewer whitespace-separated fields than the format needs.
    MissingField { line: usize },
    /// A field of the line that must be a decimal integer is not one, or is
    /// out of range for its type.
    InvalidNumber { line: usize },
    /// No line of the file holds the entry that was asked for.
    MissingEntry,
    /// A time, in seconds since the epoch, has no date in the local time zone.
    TimeOutOfRange { secs: u64 },
    /// A size was given in a unit that is not known.
    UnknownUnit { unit: String },
}

} // verus!
