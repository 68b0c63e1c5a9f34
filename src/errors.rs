//! The library's errors.

use vstd::prelude::*;

verus! {

/// What went wrong, by kind.
#[derive(Debug)]
pub enum ErrorKind {
    /// A message for the user.
    Generic(String),
    /// A lookup by name, rid or id found nothing.
    NotFound,
    /// A write would break a uniqueness rule (a name, a rid).
    Conflict,
    /// The store holds rows that break its own rules, or has no room left.
    Storage,
    /// The caller handed over data that does not fit together.
    Validation,
    /// A value given as text could not be read.
    StringParse(String),
}

/// The error of every fallible operation of the library.
#[derive(Debug)]
pub struct AppError(pub ErrorKind);

pub type AppResult<T> = Result<T, AppError>;

/// The call failed, with an error of the given kind.
pub open spec fn fails_with<T>(r: AppResult<T>, kind: ErrorKind) -> bool {
    r is Err && r->Err_0.0 == kind
}

impl AppError {
    pub fn new(kind: ErrorKind) -> (r: AppError)
        ensures
            r.0 == kind,
    {
        AppError(kind)
    }

    pub fn from_str(msg: &str) -> (r: AppError)
        ensures
            r.0 is Generic,
            r.0->Generic_0@ == msg@,
    {
        AppError(ErrorKind::Generic(msg.to_string()))
    }

    pub fn kind(&self) -> (r: &ErrorKind)
        ensures
            *r == self.0,
    {
        &self.0
    }

    /// The error as a sentence for the user: the message itself for
    /// `Generic` and `StringParse`, a fixed sentence for the other kinds.
    pub fn message(&self) -> (r: String)
        ensures
            self.0 is Generic ==> r@ == self.0->Generic_0@,
            self.0 is StringParse ==> r@ == self.0->StringParse_0@,
    {
        match &self.0 {
            ErrorKind::Generic(msg) => msg.clone(),
            ErrorKind::StringParse(msg) => msg.clone(),
            ErrorKind::NotFound => "Nothing was found.".to_string(),
            ErrorKind::Conflict => "That name or id is already taken.".to_string(),
            ErrorKind::Storage => "The store is damaged or full.".to_string(),
            ErrorKind::Validation => "The data do not fit together.".to_string(),
        }
    }
}

} // verus!
