//! Errors of the node.

use vstd::prelude::*;

verus! {

/// What can go wrong.
#[derive(Debug)]
pub enum Error {
    /// The node could not start.
    Startup(String),
    /// The configuration is unusable.
    Config(String),
    /// Local storage failed.
    Storage(String),
    /// A message violated the protocol.
    Protocol(String),
    /// An upgrade step failed.
    Upgrade(String),
    /// The operating system reported a failure.
    Io(String),
}

/// Mathematical content of an [`Error`].
pub enum ErrorModel {
    Startup(Seq<char>),
    Config(Seq<char>),
    Storage(Seq<char>),
    Protocol(Seq<char>),
    Upgrade(Seq<char>),
    Io(Seq<char>),
}

impl View for Error {
    type V = ErrorModel;

    open spec fn view(&self) -> ErrorModel {
        match self {
            Error::Startup(s) => ErrorModel::Startup(s@),
            Error::Config(s) => ErrorModel::Config(s@),
            Error::Storage(s) => ErrorModel::Storage(s@),
            Error::Protocol(s) => ErrorModel::Protocol(s@),
            Error::Upgrade(s) => ErrorModel::Upgrade(s@),
            Error::Io(s) => ErrorModel::Io(s@),
        }
    }
}

impl Error {
    /// The same error once more.
    #[must_use]
    pub fn duplicate(&self) -> (e: Error)
        ensures
            e@ == self@,
    {
        match self {
            Error::Startup(s) => Error::Startup(s.clone()),
            Error::Config(s) => Error::Config(s.clone()),
            Error::Storage(s) => Error::Storage(s.clone()),
            Error::Protocol(s) => Error::Protocol(s.clone()),
            Error::Upgrade(s) => Error::Upgrade(s.clone()),
            Error::Io(s) => Error::Io(s.clone()),
        }
    }
}

} // verus!
