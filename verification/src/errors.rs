//! The failure taxonomy of the converter.

use vstd::prelude::*;

verus! {

/// What can go wrong: the source cannot be read or decoded, a line is not
/// valid JSON, or a leaf name met while building a row is absent from the
/// frozen column set.
#[derive(Debug, Clone, PartialEq, Eq)]
pub enum CsvError {
    IoError { msg: String },
    ParseError { line: usize, cause: String },
    SchemaMismatch { column: String },
}

/// The diagnostic text for an error.
pub open spec fn message_of(e: CsvError) -> Seq<char> {
    match e {
        CsvError::IoError { msg } => "Error reading input: "@ + msg@,
        CsvError::ParseError { line: _, cause } => "Error parsing JSON: "@ + cause@,
        CsvError::SchemaMismatch { column } => "Column not found: "@ + column@,
    }
}

impl CsvError {
    /// The human-readable diagnostic for this error.
    pub fn message(&self) -> (r: String)
        ensures
            r@ == message_of(*self),
    {
        match self {
            CsvError::IoError { msg } => {
                let head = <String as vstd::string::StringExecFns>::from_str("Error reading input: ");
                <String as vstd::string::StringExecFns>::concat(head, msg.as_str())
            },
            CsvError::ParseError { line: _, cause } => {
                let head = <String as vstd::string::StringExecFns>::from_str("Error parsing JSON: ");
                <String as vstd::string::StringExecFns>::concat(head, cause.as_str())
            },
            CsvError::SchemaMismatch { column } => {
                let head = <String as vstd::string::StringExecFns>::from_str("Column not found: ");
                <String as vstd::string::StringExecFns>::concat(head, column.as_str())
            },
        }
    }
}

} // verus!
