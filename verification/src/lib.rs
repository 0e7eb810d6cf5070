//! Student grade summaries over comma-separated records.
//!
//! Records arrive as rows of text fields: a name followed by grade values.
//! Grades are exact decimal numbers held as a whole count of hundredths,
//! so every statistic here is computed and proved in integer arithmetic.

use vstd::prelude::*;

pub mod csv_input;
pub mod grade;
pub mod pipeline;
pub mod report;
pub mod student;

verus! {

/// A fatal failure of the reading stage.
///
/// Field-level problems inside a grade value are never reported here:
/// an unparsable grade is silently replaced by zero.
#[derive(Clone, Copy, Debug, PartialEq, Eq, Structural)]
pub enum ReadError {
    /// The source could not be read at all.
    IoError,
    /// The source bytes could not be decomposed into rows of fields.
    ParseError,
}

impl ReadError {
    /// A short fixed label for the error, for display by callers.
    pub fn label(&self) -> (r: &'static str)
        ensures
            *self == ReadError::IoError ==> r@ == "IOError"@,
            *self == ReadError::ParseError ==> r@ == "ParseError"@,
    {
        match self {
            ReadError::IoError => "IOError",
            ReadError::ParseError => "ParseError",
        }
    }
}

} // verus!
