//! The error type shared by the series operations and the CSV reader.
use vstd::prelude::*;

verus! {

/// An error of this library.  Parse and record errors carry the column and
/// the line (1-based) they were found at, so a caller can report them.
#[derive(PartialEq, Eq, Debug)]
pub enum PolarsError {
    /// A series of one type stood where another type was needed.
    DataTypeMisMatch,
    /// The operation is not defined for this data type.
    InvalidOperation,
    /// The schema asks for a column type the builders do not support.
    UnsupportedType,
    /// The row index over the byte stream could not be built.
    IndexFailed,
    /// A row whose byte structure could not be read (wrong field count or
    /// bytes that are not UTF-8), found at `line`.
    MalformedRecord { line: usize },
    /// A non-empty field that does not parse under the column's type,
    /// carrying the raw value as it stood in the record.
    ParseError { column: usize, line: usize, value: Vec<u8> },
    /// The header row could not be read.
    BadHeader,
    /// Concatenation was asked of an empty list of tables.
    EmptyAccumulate,
    /// Two tables whose columns disagree in number or type were concatenated.
    ShapeMisMatch,
}

} // verus!
