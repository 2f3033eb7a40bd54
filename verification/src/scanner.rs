//! The closed error taxonomy shared by every collection strategy.

use crate::error::Error;
use crate::numtext::dec_str;
use vstd::prelude::*;
use vstd::string::StringExecFns;

verus! {

/// Unified error type for all scanning strategies. Every fallible step of a
/// collection pass maps into exactly one of these kinds.
#[derive(Debug)]
#[non_exhaustive]
pub enum ScanError {
    /// Local collection failure (registry, WMI, system query).
    Local(String),
    /// Remote connection or transport failure.
    RemoteConnection {
        /// Target host
        host: String,
        /// What went wrong
        message: String,
    },
    /// Remote authentication rejected.
    RemoteAuth {
        /// Target host
        host: String,
        /// Rejected user
        user: String,
    },
    /// Command execution error on the remote host.
    RemoteExecution {
        /// Target host
        host: String,
        /// What went wrong
        message: String,
    },
    /// Response deserialization failure, with its cause.
    Deserialization(String),
    /// Operation timed out after this many seconds.
    Timeout(u64),
}

impl ScanError {
    /// The message text of this error, for use in contracts.
    pub open spec fn message_spec(&self) -> Seq<char> {
        match self {
            ScanError::Local(s) => "local scan failed: "@ + s@,
            ScanError::RemoteConnection { host, message } => "remote connection to "@ + host@
                + " failed: "@ + message@,
            ScanError::RemoteAuth { host, user } => "authentication failed for "@ + user@ + "@"@
                + host@,
            ScanError::RemoteExecution { host, message } => "remote execution error on "@ + host@
                + ": "@ + message@,
            ScanError::Deserialization(s) => "deserialization error: "@ + s@,
            ScanError::Timeout(secs) => "operation timed out after "@ + dec_str(*secs as nat)
                + "s"@,
        }
    }

    /// Renders the error as one line of message text.
    pub fn message(&self) -> (r: String)
        ensures
            r@ == self.message_spec(),
    {
        match self {
            ScanError::Local(s) => String::from_str("local scan failed: ").concat(s.as_str()),
            ScanError::RemoteConnection { host, message } => String::from_str(
                "remote connection to ",
            ).concat(host.as_str()).concat(" failed: ").concat(message.as_str()),
            ScanError::RemoteAuth { host, user } => String::from_str(
                "authentication failed for ",
            ).concat(user.as_str()).concat("@").concat(host.as_str()),
            ScanError::RemoteExecution { host, message } => String::from_str(
                "remote execution error on ",
            ).concat(host.as_str()).concat(": ").concat(message.as_str()),
            ScanError::Deserialization(s) => String::from_str("deserialization error: ").concat(
                s.as_str(),
            ),
            ScanError::Timeout(secs) => {
                let n = crate::numtext::u64_to_string(*secs);
                String::from_str("operation timed out after ").concat(n.as_str()).concat("s")
            },
        }
    }

    /// Flattens a native collection failure into the `Local` kind.
    pub fn from(err: Error) -> (r: ScanError)
        ensures
            r matches ScanError::Local(m) && m@ == err.message_spec(),
    {
        ScanError::Local(err.message())
    }
}

} // verus!
