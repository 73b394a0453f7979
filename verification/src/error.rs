//! The error type shared by the library.

use vstd::prelude::*;
use crate::text::concat;

verus! {

/// What went wrong, with a human-readable message.
#[derive(Debug)]
pub enum CortxError {
    Io(String),
    Yaml(String),
    Storage(String),
    Validation(String),
    NotFound(String),
    Schema(String),
    QueryParse(String),
}

/// The text that introduces each kind of error.
pub open spec fn error_prefix(e: CortxError) -> Seq<char> {
    match e {
        CortxError::Io(_) => "I/O error: "@,
        CortxError::Yaml(_) => "YAML error: "@,
        CortxError::Storage(_) => "storage error: "@,
        CortxError::Validation(_) => "validation error: "@,
        CortxError::NotFound(_) => "not found: "@,
        CortxError::Schema(_) => "schema error: "@,
        CortxError::QueryParse(_) => "query parse error: "@,
    }
}

/// The message that an error carries.
pub open spec fn error_message(e: CortxError) -> Seq<char> {
    match e {
        CortxError::Io(m) => m@,
        CortxError::Yaml(m) => m@,
        CortxError::Storage(m) => m@,
        CortxError::Validation(m) => m@,
        CortxError::NotFound(m) => m@,
        CortxError::Schema(m) => m@,
        CortxError::QueryParse(m) => m@,
    }
}

impl CortxError {
    /// The error as text: its kind followed by its message.
    pub fn to_string(&self) -> (r: String)
        ensures
            r@ == error_prefix(*self) + error_message(*self),
    {
        match self {
            CortxError::Io(m) => concat("I/O error: ", m.as_str()),
            CortxError::Yaml(m) => concat("YAML error: ", m.as_str()),
            CortxError::Storage(m) => concat("storage error: ", m.as_str()),
            CortxError::Validation(m) => concat("validation error: ", m.as_str()),
            CortxError::NotFound(m) => concat("not found: ", m.as_str()),
            CortxError::Schema(m) => concat("schema error: ", m.as_str()),
            CortxError::QueryParse(m) => concat("query parse error: ", m.as_str()),
        }
    }
}

} // verus!
