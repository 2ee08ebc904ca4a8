//! Stable application errors: a machine-readable code, a message for the
//! user, and optional technical details.

use vstd::prelude::*;

verus! {

/// The abstract value of an error.
pub struct AppErrorView {
    pub code: Seq<char>,
    pub message: Seq<char>,
    pub details: Option<Seq<char>>,
}

/// An error with a stable code.
#[derive(Debug, Clone)]
pub struct AppError {
    code: String,
    message: String,
    details: Option<String>,
}

impl View for AppError {
    type V = AppErrorView;

    closed spec fn view(&self) -> AppErrorView {
        AppErrorView {
            code: self.code@,
            message: self.message@,
            details: match &self.details {
                Some(d) => Some(d@),
                None => None,
            },
        }
    }
}

impl AppError {
    /// An error without technical details.
    pub fn new(code: &str, message: String) -> (e: AppError)
        ensures
            e@ == (AppErrorView { code: code@, message: message@, details: None }),
    {
        AppError { code: code.to_owned(), message, details: None }
    }

    /// An error carrying the technical cause.
    pub fn wrap(code: &str, message: String, details: String) -> (e: AppError)
        ensures
            e@ == (AppErrorView { code: code@, message: message@, details: Some(details@) }),
    {
        AppError { code: code.to_owned(), message, details: Some(details) }
    }

    pub fn code(&self) -> (r: &str)
        ensures
            r@ == self@.code,
    {
        self.code.as_str()
    }

    pub fn message(&self) -> (r: &str)
        ensures
            r@ == self@.message,
    {
        self.message.as_str()
    }

    pub fn details(&self) -> (r: Option<&str>)
        ensures
            match r {
                Some(d) => self@.details == Some(d@),
                None => self@.details is None,
            },
    {
        match &self.details {
            Some(d) => Some(d.as_str()),
            None => None,
        }
    }
}

} // verus!
