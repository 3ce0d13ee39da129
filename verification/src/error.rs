//! Domain errors, and how each one is answered.

use crate::text::concat_str;
use vstd::prelude::*;

verus! {

broadcast use vstd::string::group_string_axioms;

/// Domain errors. Failures of the database, the cluster or the control plane
/// itself carry their description as text.
pub enum Error {
    NotFound(&'static str),
    Invalid(String),
    Unauthorized,
    Forbidden,
    Conflict(String),
    Database(String),
    Kube(String),
    Internal(String),
}

/// The HTTP status an error is answered with.
pub open spec fn status_of(e: Error) -> u16 {
    match e {
        Error::NotFound(_) => 404,
        Error::Invalid(_) => 400,
        Error::Unauthorized => 401,
        Error::Forbidden => 403,
        Error::Conflict(_) => 409,
        Error::Database(_) | Error::Kube(_) | Error::Internal(_) => 500,
    }
}

/// The text an error displays as.
pub open spec fn text_of(e: Error) -> Seq<char> {
    match e {
        Error::NotFound(what) => what@ + " not found"@,
        Error::Invalid(m) => m@,
        Error::Unauthorized => "authentication required"@,
        Error::Forbidden => "not permitted"@,
        Error::Conflict(m) => m@,
        Error::Database(m) => m@,
        Error::Kube(m) => m@,
        Error::Internal(m) => m@,
    }
}

/// Whether `r` is an `Invalid` error whose message reads `msg`.
pub open spec fn is_invalid<T>(r: Result<T, Error>, msg: Seq<char>) -> bool {
    r matches Err(Error::Invalid(m)) && m@ == msg
}

/// Whether `r` is a `NotFound` error naming `what`.
pub open spec fn is_not_found<T>(r: Result<T, Error>, what: Seq<char>) -> bool {
    r matches Err(Error::NotFound(w)) && w@ == what
}

/// An `Invalid` error with the given message.
pub fn invalid(msg: &str) -> (e: Error)
    ensures
        e matches Error::Invalid(m) && m@ == msg@,
{
    Error::Invalid(msg.to_string())
}

/// A `Conflict` error with the given message.
pub fn conflict(msg: &str) -> (e: Error)
    ensures
        e matches Error::Conflict(m) && m@ == msg@,
{
    Error::Conflict(msg.to_string())
}

/// What a conflicting write is answered with: a violated unique constraint
/// becomes a `Conflict` carrying `msg`; anything else passes through.
pub fn unique_violation_as_conflict(error: Error, is_unique_violation: bool, msg: &str) -> (e: Error)
    ensures
        is_unique_violation ==> (e matches Error::Conflict(m) && m@ == msg@),
        !is_unique_violation ==> e == error,
{
    if is_unique_violation {
        conflict(msg)
    } else {
        error
    }
}

/// A looked-up record, or `NotFound` naming what was looked for.
pub fn found<T>(record: Option<T>, what: &'static str) -> (r: Result<T, Error>)
    ensures
        record matches Some(v) ==> r == Ok::<T, Error>(v),
        record is None ==> is_not_found(r, what@),
{
    match record {
        Some(v) => Ok(v),
        None => Err(Error::NotFound(what)),
    }
}

impl Error {
    /// The HTTP status this error is answered with.
    pub fn status(&self) -> (s: u16)
        ensures
            s == status_of(*self),
    {
        match self {
            Error::NotFound(_) => 404,
            Error::Invalid(_) => 400,
            Error::Unauthorized => 401,
            Error::Forbidden => 403,
            Error::Conflict(_) => 409,
            Error::Database(_) | Error::Kube(_) | Error::Internal(_) => 500,
        }
    }

    /// The text this error displays as.
    pub fn message(&self) -> (m: String)
        ensures
            m@ == text_of(*self),
    {
        match self {
            Error::NotFound(what) => concat_str(what, " not found"),
            Error::Invalid(m) => m.clone(),
            Error::Unauthorized => "authentication required".to_string(),
            Error::Forbidden => "not permitted".to_string(),
            Error::Conflict(m) => m.clone(),
            Error::Database(m) => m.clone(),
            Error::Kube(m) => m.clone(),
            Error::Internal(m) => m.clone(),
        }
    }

    /// The text sent to the client: internal detail routinely contains
    /// connection strings and SQL, so a server error says only that it
    /// happened.
    pub fn public_message(&self) -> (m: String)
        ensures
            status_of(*self) == 500 ==> m@ == "internal server error"@,
            status_of(*self) != 500 ==> m@ == text_of(*self),
    {
        if self.status() == 500 {
            "internal server error".to_string()
        } else {
            self.message()
        }
    }
}

/// A client is never shown the detail of a server error, and is always shown
/// the text of any other.
pub proof fn law_internal_detail_is_never_returned(e: Error)
    ensures
        status_of(e) == 500 <==> (e is Database || e is Kube || e is Internal),
        status_of(e) != 500 ==> 400 <= status_of(e) < 500,
{
}

} // verus!
