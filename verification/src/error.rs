//! What can go wrong, and how it is told apart.

use crate::lifecycle::Transition;
use vstd::prelude::*;

verus! {

/// The input that was malformed.
#[derive(Clone, Copy, Debug, PartialEq, Eq, Structural)]
pub enum Invalid {
    /// A proximity constraint without exactly three components.
    Nearby,
    /// A page before the first, or a negative page length.
    Pagination,
}

/// The three kinds of failure.
#[derive(Clone, Copy, Debug, PartialEq, Eq, Structural)]
pub enum ErrorKind {
    /// The input was malformed; the store was not touched.
    Validation,
    /// No record met the condition. Whether no record has the id, or the
    /// one that has it fails the guard, cannot be told.
    GuardFailure,
    /// The store itself failed.
    Store,
}

/// A failure of an operation on walk requests.
#[derive(Clone, Debug, PartialEq, Eq)]
pub enum Error {
    /// The input was malformed.
    Validation(Invalid),
    /// No request has the id that was asked for.
    NotFound,
    /// A conditional update of one request found none to update.
    NotMatched,
    /// A transition did not apply to exactly one request.
    GuardFailure(Transition),
    /// The store failed, with its own account of why.
    Store(String),
}

impl Error {
    /// The kind of the failure.
    pub open spec fn spec_kind(self) -> ErrorKind {
        match self {
            Error::Validation(_) => ErrorKind::Validation,
            Error::NotFound => ErrorKind::GuardFailure,
            Error::NotMatched => ErrorKind::GuardFailure,
            Error::GuardFailure(_) => ErrorKind::GuardFailure,
            Error::Store(_) => ErrorKind::Store,
        }
    }

    /// The kind of the failure.
    pub fn kind(&self) -> (kind: ErrorKind)
        ensures
            kind == self.spec_kind(),
    {
        match self {
            Error::Validation(_) => ErrorKind::Validation,
            Error::NotFound => ErrorKind::GuardFailure,
            Error::NotMatched => ErrorKind::GuardFailure,
            Error::GuardFailure(_) => ErrorKind::GuardFailure,
            Error::Store(_) => ErrorKind::Store,
        }
    }

    /// The message of the failure.
    pub open spec fn spec_message(self) -> Seq<char> {
        match self {
            Error::Validation(Invalid::Nearby) => "Invalid nearby query, expect [longitude, latitude, radius]"@,
            Error::Validation(Invalid::Pagination) => "Invalid pagination, expect page >= 1 and size >= 0"@,
            Error::NotFound => "walk request not found"@,
            Error::NotMatched => "代遛请求不存在"@,
            Error::GuardFailure(transition) => transition.refusal(),
            Error::Store(reason) => reason@,
        }
    }

    /// The message of the failure.
    pub fn message(&self) -> (message: String)
        ensures
            message@ == self.spec_message(),
    {
        match self {
            Error::Validation(Invalid::Nearby) => "Invalid nearby query, expect [longitude, latitude, radius]".to_owned(),
            Error::Validation(Invalid::Pagination) => "Invalid pagination, expect page >= 1 and size >= 0".to_owned(),
            Error::NotFound => "walk request not found".to_owned(),
            Error::NotMatched => "代遛请求不存在".to_owned(),
            Error::GuardFailure(transition) => transition.refusal_text(),
            Error::Store(reason) => reason.clone(),
        }
    }
}

} // verus!
