//! Failures of the service: a database error or an outgoing request error.
use vstd::prelude::*;
use vstd::string::*;

verus! {

/// What went wrong while serving a request.
pub enum ServiceError {
    Db,
    Request,
}

/// The message shown for an error.
pub open spec fn error_message(e: ServiceError) -> Seq<char> {
    match e {
        ServiceError::Db => "database error"@,
        ServiceError::Request => "request error"@,
    }
}

impl ServiceError {
    /// The message shown for the error, which is also the body of the
    /// error answer.
    pub fn message(&self) -> (m: String)
        ensures
            m@ == error_message(*self),
    {
        match self {
            ServiceError::Db => String::from_str("database error"),
            ServiceError::Request => String::from_str("request error"),
        }
    }
}

} // verus!
