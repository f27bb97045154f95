//! The error taxonomy of the forwarder core.

use vstd::prelude::*;

verus! {

/// Every failure that the core reports.
#[derive(Debug, Clone, PartialEq, Eq)]
pub enum Error {
    /// The codec rejected its input.
    MalformedPacket,
    /// A table insertion found no room and no victim to evict.
    CapacityExceeded,
    /// A management lookup missed.
    NotFound,
    /// A waiter elapsed before its Data arrived.
    Timeout,
    /// A session or face failed; the message says how.
    NetworkError(String),
    /// An option was invalid at start-up.
    ConfigError,
}

impl Error {
    /// The fixed text that names the kind of failure.
    pub fn kind_name(&self) -> (s: &'static str)
        ensures
            s@ == match *self {
                Error::MalformedPacket => "malformed packet"@,
                Error::CapacityExceeded => "capacity exceeded"@,
                Error::NotFound => "not found"@,
                Error::Timeout => "timeout"@,
                Error::NetworkError(_) => "network error"@,
                Error::ConfigError => "configuration error"@,
            },
    {
        match self {
            Error::MalformedPacket => "malformed packet",
            Error::CapacityExceeded => "capacity exceeded",
            Error::NotFound => "not found",
            Error::Timeout => "timeout",
            Error::NetworkError(_) => "network error",
            Error::ConfigError => "configuration error",
        }
    }
}

} // verus!
