//! The error that a request is answered with.

use vstd::prelude::*;

verus! {

/// Who is at fault when a request fails.
#[derive(Debug, Clone, Copy, PartialEq, Eq, Structural)]
pub enum ErrorKind {
    /// The request itself is not acceptable.
    InvalidParams,
    /// The request was acceptable but could not be carried out.
    Internal,
}

/// A failed request: the kind of failure and the message for the caller.
#[derive(Debug)]
pub struct FetchError {
    pub kind: ErrorKind,
    pub message: String,
}

/// What a [`FetchError`] says.
pub struct ErrorModel {
    pub kind: ErrorKind,
    pub message: Seq<char>,
}

impl View for FetchError {
    type V = ErrorModel;

    open spec fn view(&self) -> ErrorModel {
        ErrorModel { kind: self.kind, message: self.message@ }
    }
}

/// An error that blames the request.
pub open spec fn invalid(message: Seq<char>) -> ErrorModel {
    ErrorModel { kind: ErrorKind::InvalidParams, message }
}

/// An error that does not blame the request.
pub open spec fn internal(message: Seq<char>) -> ErrorModel {
    ErrorModel { kind: ErrorKind::Internal, message }
}

/// What a result says: the view of its value or of its error.
pub open spec fn outcome<T: View>(result: Result<T, FetchError>) -> Result<T::V, ErrorModel> {
    match result {
        Ok(value) => Ok(value@),
        Err(error) => Err(error@),
    }
}

/// An error that blames the request.
pub fn invalid_params(message: String) -> (res: FetchError)
    ensures
        res@ == invalid(message@),
{
    FetchError { kind: ErrorKind::InvalidParams, message }
}

/// An error that does not blame the request.
pub fn internal_error(message: String) -> (res: FetchError)
    ensures
        res@ == internal(message@),
{
    FetchError { kind: ErrorKind::Internal, message }
}

} // verus!
