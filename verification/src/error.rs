//! Errors of the server's life cycle.
use vstd::prelude::*;

verus! {

/// Why a server could not be configured, bound or supervised.
#[derive(Debug)]
pub enum Error {
    InvalidConfig(&'static str),
    /// An input or output error, by its message.
    Io(String),
    /// A connection task that failed, by its message.
    Task(String),
}

impl Error {
    pub open spec fn message(self) -> Seq<char> {
        match self {
            Error::InvalidConfig(reason) => "invalid server configuration: "@ + reason@,
            Error::Io(error) => "I/O error: "@ + error@,
            Error::Task(error) => "connection task failed: "@ + error@,
        }
    }

    pub fn to_string(&self) -> (message: String)
        ensures
            message@ == self.message(),
    {
        match self {
            Error::InvalidConfig(reason) => String::from_str("invalid server configuration: ").concat(
                reason,
            ),
            Error::Io(error) => String::from_str("I/O error: ").concat(error.as_str()),
            Error::Task(error) => String::from_str("connection task failed: ").concat(
                error.as_str(),
            ),
        }
    }
}

} // verus!
