//! Error type of the library. Failures of outside collaborators (the
//! database driver, the output sink, the clipboard) are carried as
//! plain descriptions; the boundary code converts its own error
//! values into these variants.

use vstd::prelude::*;

verus! {

#[derive(Debug)]
pub enum DbbaError {
    /// A database read failed; no partial snapshot is ever used.
    Database(String),
    /// Writing the report failed.
    Io(String),
    /// A record could not be serialized.
    Json(String),
    /// The clipboard could not be reached.
    Clipboard(String),
    /// The adapter was not connected or misconfigured.
    Config(String),
    Unknown(String),
}

impl DbbaError {
    /// A plain description of the error, for the operator.
    pub fn message(&self) -> (r: &String)
        ensures
            r@ == self.spec_message(),
    {
        match self {
            DbbaError::Database(s) => s,
            DbbaError::Io(s) => s,
            DbbaError::Json(s) => s,
            DbbaError::Clipboard(s) => s,
            DbbaError::Config(s) => s,
            DbbaError::Unknown(s) => s,
        }
    }

    pub open spec fn spec_message(&self) -> Seq<char> {
        match self {
            DbbaError::Database(s) => s@,
            DbbaError::Io(s) => s@,
            DbbaError::Json(s) => s@,
            DbbaError::Clipboard(s) => s@,
            DbbaError::Config(s) => s@,
            DbbaError::Unknown(s) => s@,
        }
    }
}

} // verus!
