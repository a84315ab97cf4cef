//! Request errors and the HTTP statuses they answer with.

use vstd::prelude::*;

use crate::text;
use crate::value::StoreError;

verus! {

/// A failed request.
#[derive(Debug)]
pub enum Error {
    /// The request was malformed.
    BadRequest(String),
    /// The request is not allowed.
    Forbidden,
    /// Nothing is at the address.
    NotFound,
    /// The address does not take this method.
    MethodNotAllowed,
    /// The server failed.
    Server(String),
    /// A page failed to render.
    Render(String),
}

/// The status code each error answers with.
pub open spec fn status_of(e: Error) -> u16 {
    match e {
        Error::BadRequest(_) => 400,
        Error::Forbidden => 403,
        Error::NotFound => 404,
        Error::MethodNotAllowed => 405,
        Error::Server(_) => 500,
        Error::Render(_) => 500,
    }
}

/// The text each error shows.
pub open spec fn text_of(e: Error) -> Seq<char> {
    match e {
        Error::BadRequest(m) => m@,
        Error::Forbidden => "Forbidden"@,
        Error::NotFound => "Not Found"@,
        Error::MethodNotAllowed => "Method Not Allowed"@,
        Error::Server(m) => m@,
        Error::Render(m) => m@,
    }
}

impl Error {
    /// The HTTP status code of the error.
    pub fn status(&self) -> (r: u16)
        ensures
            r == status_of(*self),
    {
        match self {
            Error::BadRequest(_) => 400,
            Error::Forbidden => 403,
            Error::NotFound => 404,
            Error::MethodNotAllowed => 405,
            Error::Server(_) | Error::Render(_) => 500,
        }
    }

    /// Whether the status is a server error (5xx).
    pub fn is_server_error(&self) -> (r: bool)
        ensures
            r == (500 <= status_of(*self) < 600),
    {
        let s = self.status();
        500 <= s && s < 600
    }

    /// The text the error is shown as.
    pub fn message(&self) -> (r: String)
        ensures
            r@ == text_of(*self),
    {
        match self {
            Error::BadRequest(m) => m.clone(),
            Error::Forbidden => text::owned("Forbidden"),
            Error::NotFound => text::owned("Not Found"),
            Error::MethodNotAllowed => text::owned("Method Not Allowed"),
            Error::Server(m) => m.clone(),
            Error::Render(m) => m.clone(),
        }
    }

    /// A server error carrying the store's message.
    pub fn store(e: &StoreError) -> (r: Error)
        ensures
            r matches Error::Server(m) && m@ == e.text(),
    {
        Error::Server(e.message())
    }
}

} // verus!
