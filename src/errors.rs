//! The error classification that handlers map to transport status codes.
use vstd::prelude::*;
use vstd::string::*;

verus! {

#[derive(Debug, Clone, Copy, PartialEq, Eq, Structural)]
pub enum ErrorKind {
    NotFound,
    InvalidCredentials,
    Unauthorized,
    BadRequest,
    Internal,
}

pub open spec fn status_of(kind: ErrorKind) -> u16 {
    match kind {
        ErrorKind::NotFound => 404,
        ErrorKind::InvalidCredentials => 400,
        ErrorKind::Unauthorized => 401,
        ErrorKind::BadRequest => 400,
        ErrorKind::Internal => 500,
    }
}

/// A failed request: its class and a message for the caller.
#[derive(Debug, Clone)]
pub struct ApiError {
    pub kind: ErrorKind,
    pub message: String,
}

impl ApiError {
    /// The HTTP status that the error's class maps to.
    pub fn status(&self) -> (r: u16)
        ensures
            r == status_of(self.kind),
    {
        match self.kind {
            ErrorKind::NotFound => 404,
            ErrorKind::InvalidCredentials => 400,
            ErrorKind::Unauthorized => 401,
            ErrorKind::BadRequest => 400,
            ErrorKind::Internal => 500,
        }
    }
}

/// An internal failure carrying `message`.
pub fn internal_error(message: String) -> (r: ApiError)
    ensures
        r.kind == ErrorKind::Internal,
        r.message@ == message@,
{
    ApiError { kind: ErrorKind::Internal, message }
}

/// The one answer for an unknown user and for a wrong password alike.
pub fn invalid_credentials() -> (r: ApiError)
    ensures
        r.kind == ErrorKind::InvalidCredentials,
        r.message@ == "Invalid credentials"@,
{
    ApiError { kind: ErrorKind::InvalidCredentials, message: String::from_str("Invalid credentials") }
}

pub fn unauthorized() -> (r: ApiError)
    ensures
        r.kind == ErrorKind::Unauthorized,
        r.message@ == "Unauthorized access"@,
{
    ApiError { kind: ErrorKind::Unauthorized, message: String::from_str("Unauthorized access") }
}

pub fn product_not_found() -> (r: ApiError)
    ensures
        r.kind == ErrorKind::NotFound,
        r.message@ == "Product not found"@,
{
    ApiError { kind: ErrorKind::NotFound, message: String::from_str("Product not found") }
}

} // verus!
