//! The core error taxonomy. Failures of the external protocol collaborator
//! and of the platform are carried as plain messages so that every variant
//! is an ordinary value.
use vstd::prelude::*;

verus! {

/// The class of a rejected user input.
#[derive(Clone, Copy, PartialEq, Eq, Structural, Debug)]
pub enum BadInputClass {
    MalformedAddress,
}

/// Every failure the core can surface. Protocol and I/O causes are carried
/// as their rendered messages.
#[derive(Debug)]
pub enum Error {
    ServerDoesNotExist,
    ServerAlreadyExists,
    NoServersMatched,
    ConnectionError(String),
    AuthenticationError,
    CommandTooLong,
    IoError(String),
    BadInput(BadInputClass),
    FailedToFetchConfigPath,
    ConfigParseError(String),
    ConfigWriteError(String),
}

} // verus!
