//! The error kinds a repository operation or a chain walk can report.

use vstd::prelude::*;

verus! {

/// Every fallible operation of this crate reports one of these kinds.
#[derive(Clone, Copy, Debug, PartialEq, Eq, Structural)]
pub enum Error {
    /// The requested account id is not stored.
    NoSuchAccount,
    /// The requested `(account, transaction)` pair is not stored, or a chain
    /// walk met a dangling `parent` pointer.
    NoSuchTransaction,
    /// A chain walk met a transaction whose ancestry loops back on itself.
    CorruptChain,
    /// The storage backend reported an underlying fault; passed through as is.
    BackendFailure,
}

impl Error {
    /// A short description of the error, for callers that render messages.
    pub fn message(&self) -> (r: &'static str)
        ensures
            *self is NoSuchAccount ==> r@ == "no such account"@,
            *self is NoSuchTransaction ==> r@ == "no such transaction"@,
            *self is CorruptChain ==> r@ == "corrupt transaction chain"@,
            *self is BackendFailure ==> r@ == "storage backend failure"@,
    {
        match self {
            Error::NoSuchAccount => "no such account",
            Error::NoSuchTransaction => "no such transaction",
            Error::CorruptChain => "corrupt transaction chain",
            Error::BackendFailure => "storage backend failure",
        }
    }
}

} // verus!
