//! The errors of the library.

use vstd::prelude::*;

verus! {

/// The three ways in which a request can fail.
#[derive(Clone, Copy, Debug, PartialEq, Eq, Structural)]
pub enum ErrorKind {
    /// Malformed JSON, a nested value, a record that is no object, a timestamp that cannot be
    /// read.
    BadInput,
    /// A query string that the query grammar does not derive.
    UnparseableQuery,
    /// A batch that does not fit its schema, or a failure of storage or of the executor.
    Internal,
}

/// A failure: its kind, and a message for people.
#[derive(Clone, Debug)]
pub struct MeltError {
    pub kind: ErrorKind,
    pub message: String,
}

impl MeltError {
    pub fn new(kind: ErrorKind, message: &str) -> (e: MeltError)
        ensures
            e.kind == kind,
            e.message@ == message@,
    {
        MeltError { kind, message: message.to_owned() }
    }

    pub fn bad_input(message: &str) -> (e: MeltError)
        ensures
            e.kind == ErrorKind::BadInput,
            e.message@ == message@,
    {
        MeltError::new(ErrorKind::BadInput, message)
    }

    pub fn unparseable_query(message: &str) -> (e: MeltError)
        ensures
            e.kind == ErrorKind::UnparseableQuery,
            e.message@ == message@,
    {
        MeltError::new(ErrorKind::UnparseableQuery, message)
    }

    pub fn internal(message: &str) -> (e: MeltError)
        ensures
            e.kind == ErrorKind::Internal,
            e.message@ == message@,
    {
        MeltError::new(ErrorKind::Internal, message)
    }

    /// The message, as a caller would print it.
    pub fn to_string(&self) -> (s: String)
        ensures
            s@ == self.message@,
    {
        self.message.clone()
    }
}

} // verus!
