//! The error values that the engine hands to its callers.

use vstd::prelude::*;

verus! {

/// Why an operation gave up. Each variant carries a message for the user.
#[derive(Debug, PartialEq, Eq)]
pub enum Error {
    Network(String),
    UnexpectedInput(String),
    InvalidUI(String),
    Other(String),
}

pub enum ErrorModel {
    Network(Seq<char>),
    UnexpectedInput(Seq<char>),
    InvalidUI(Seq<char>),
    Other(Seq<char>),
}

impl View for Error {
    type V = ErrorModel;

    open spec fn view(&self) -> ErrorModel {
        match self {
            Error::Network(m) => ErrorModel::Network(m@),
            Error::UnexpectedInput(m) => ErrorModel::UnexpectedInput(m@),
            Error::InvalidUI(m) => ErrorModel::InvalidUI(m@),
            Error::Other(m) => ErrorModel::Other(m@),
        }
    }
}

impl Clone for Error {
    fn clone(&self) -> (r: Self)
        ensures
            r@ == self@,
    {
        match self {
            Error::Network(m) => Error::Network(m.clone()),
            Error::UnexpectedInput(m) => Error::UnexpectedInput(m.clone()),
            Error::InvalidUI(m) => Error::InvalidUI(m.clone()),
            Error::Other(m) => Error::Other(m.clone()),
        }
    }
}

impl Error {
    /// The message carried by the error, whatever its variant.
    pub fn message(&self) -> (m: String)
        ensures
            m@ == match self@ {
                ErrorModel::Network(t) => t,
                ErrorModel::UnexpectedInput(t) => t,
                ErrorModel::InvalidUI(t) => t,
                ErrorModel::Other(t) => t,
            },
    {
        match self {
            Error::Network(m) => m.clone(),
            Error::UnexpectedInput(m) => m.clone(),
            Error::InvalidUI(m) => m.clone(),
            Error::Other(m) => m.clone(),
        }
    }
}

} // verus!
