//! The transport abstraction the remote strategy depends on: run one
//! opaque command on the target and hand back what it printed, or fail.
//! The abstraction exists as an interface so a canned transport can stand
//! in for the network-calling one without touching collection logic.

use crate::scanner::ScanError;
use vstd::prelude::*;
use vstd::string::StringExecFns;

verus! {

/// A way to execute one command on the remote host and return its
/// standard output. Nothing is promised of the outcome: a transport may
/// fail, time out, or print anything.
pub trait WinrmTransport {
    /// Execute the command and return what it printed.
    fn execute(&self, command: &str) -> Result<String, ScanError>;
}

/// A transport that returns a canned output, or a canned execution
/// failure when it has none. It performs no network activity and stands
/// in for the real transport in tests.
pub struct ScriptedTransport {
    /// The canned standard output, when the transport is to succeed.
    pub output: Option<String>,
}

impl WinrmTransport for ScriptedTransport {
    fn execute(&self, command: &str) -> (r: Result<String, ScanError>)
        ensures
            match self.output {
                Some(s) => r matches Ok(t) && t@ == s@,
                None => r matches Err(e) && e is RemoteExecution,
            },
    {
        match &self.output {
            Some(s) => Ok(s.clone()),
            None => Err(
                ScanError::RemoteExecution {
                    host: String::from_str("scripted"),
                    message: String::from_str("no canned output"),
                },
            ),
        }
    }
}

} // verus!
