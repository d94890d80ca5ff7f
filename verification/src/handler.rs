//! The contract between the server core and user-supplied handlers.

use vstd::prelude::*;
use crate::response::Response;

verus! {

/// The failure a handler reports when it cannot produce a response; the
/// connection is closed without writing any bytes.
#[derive(Debug)]
pub struct HandlerError {
    pub msg: String,
}

/// What a handler returns: a populated response, or a failure.
pub type ServerResponse = Result<Response, HandlerError>;

/// Conversion of a handler's outcome into the result the server core
/// consumes.
pub trait IntoResponse<T> {
    fn into_response(self) -> Result<T, HandlerError>;
}

impl IntoResponse<Response> for Response {
    fn into_response(self) -> Result<Response, HandlerError> {
        Ok(self)
    }
}

} // verus!
