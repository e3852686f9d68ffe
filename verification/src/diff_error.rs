//! The errors of comparing files.

use vstd::prelude::*;
use crate::text::{from_chars, push_str};

verus! {

/// Why two files could not be compared.
#[derive(Debug, Clone, PartialEq, Eq)]
pub enum DiffError {
    /// A file is not there.
    FileNotFound(String),
    /// Reading failed.
    IoError(String),
    /// A file to compare as text is not UTF-8.
    InvalidUtf8(String),
    /// A file to compare as JSON holds no JSON value.
    JsonParseError(String),
}

/// The mathematical value of a `DiffError`.
pub enum DiffFailure {
    FileNotFound(Seq<char>),
    IoError(Seq<char>),
    InvalidUtf8(Seq<char>),
    JsonParseError(Seq<char>),
}

impl View for DiffError {
    type V = DiffFailure;

    open spec fn view(&self) -> DiffFailure {
        match *self {
            DiffError::FileNotFound(s) => DiffFailure::FileNotFound(s@),
            DiffError::IoError(s) => DiffFailure::IoError(s@),
            DiffError::InvalidUtf8(s) => DiffFailure::InvalidUtf8(s@),
            DiffError::JsonParseError(s) => DiffFailure::JsonParseError(s@),
        }
    }
}

/// The one-line description of a failure.
pub open spec fn diff_failure_text(f: DiffFailure) -> Seq<char> {
    match f {
        DiffFailure::FileNotFound(s) => "File not found: "@ + s,
        DiffFailure::IoError(s) => "IO error: "@ + s,
        DiffFailure::InvalidUtf8(s) => "Invalid UTF-8: "@ + s,
        DiffFailure::JsonParseError(s) => "JSON parse error: "@ + s,
    }
}

impl DiffError {
    /// The one-line description of the error.
    pub fn to_string(&self) -> (r: String)
        ensures
            r@ == diff_failure_text(self@),
    {
        let mut out: Vec<char> = Vec::new();
        match self {
            DiffError::FileNotFound(s) => {
                push_str(&mut out, "File not found: ");
                assert(out@ == "File not found: "@);
                push_str(&mut out, s.as_str());
            },
            DiffError::IoError(s) => {
                push_str(&mut out, "IO error: ");
                assert(out@ == "IO error: "@);
                push_str(&mut out, s.as_str());
            },
            DiffError::InvalidUtf8(s) => {
                push_str(&mut out, "Invalid UTF-8: ");
                assert(out@ == "Invalid UTF-8: "@);
                push_str(&mut out, s.as_str());
            },
            DiffError::JsonParseError(s) => {
                push_str(&mut out, "JSON parse error: ");
                assert(out@ == "JSON parse error: "@);
                push_str(&mut out, s.as_str());
            },
        }
        from_chars(&out)
    }
}

} // verus!
