//! The remote collection strategy: build the encoded command, drive it
//! through the transport, and parse the printed text as a canonical
//! report.

use crate::encoding::{base64_of, command_prefix, encode_command, utf16le_of};
use crate::wire::enc_report;
use crate::payload::{collection_script, script_text};
use crate::report::SysauditReport;
use crate::scanner::ScanError;
use crate::transport::WinrmTransport;
use crate::wire::decode_report;
use vstd::prelude::*;
use vstd::string::StringExecFns;

verus! {

/// An opaque secret value. It never surfaces through any rendered output
/// of this crate; only an explicit call hands the text back.
pub struct SecretText {
    value: String,
}

impl SecretText {
    /// The secret's text, for use in contracts.
    pub closed spec fn text_spec(&self) -> Seq<char> {
        self.value@
    }

    /// Wraps a secret.
    pub fn new(value: String) -> (r: SecretText)
        ensures
            r.text_spec() == value@,
    {
        SecretText { value }
    }

    /// Hands the secret's text back, for the one place that must send it.
    pub fn expose_secret(&self) -> (r: &String)
        ensures
            r@ == self.text_spec(),
    {
        &self.value
    }
}

/// Collects system data from a remote machine reached through a
/// command-execution transport. The configuration is fixed at
/// construction; every scan builds the same encoded command.
pub struct RemoteScanner {
    host: String,
    username: String,
    password: SecretText,
    port: u16,
    use_https: bool,
    skip_cert_verify: bool,
    timeout_secs: u64,
}

impl RemoteScanner {
    /// The configured host, for use in contracts.
    pub closed spec fn host_spec(&self) -> Seq<char> {
        self.host@
    }

    /// The configured port, for use in contracts.
    pub closed spec fn port_spec(&self) -> u16 {
        self.port
    }

    /// Whether the secured channel is used, for use in contracts.
    pub closed spec fn use_https_spec(&self) -> bool {
        self.use_https
    }

    /// Whether certificate verification is skipped, for use in contracts.
    pub closed spec fn skip_cert_verify_spec(&self) -> bool {
        self.skip_cert_verify
    }

    /// The configured timeout in seconds, for use in contracts.
    pub closed spec fn timeout_secs_spec(&self) -> u64 {
        self.timeout_secs
    }

    /// A scanner with the stated defaults: plain channel on its default
    /// port, certificates verified, thirty seconds of patience.
    pub fn new(host: String, username: String, password: SecretText) -> (r: RemoteScanner)
        ensures
            r.host_spec() == host@,
            r.port_spec() == 5985u16,
            !r.use_https_spec(),
            !r.skip_cert_verify_spec(),
            r.timeout_secs_spec() == 30u64,
    {
        RemoteScanner {
            host,
            username,
            password,
            port: 5985,
            use_https: false,
            skip_cert_verify: false,
            timeout_secs: 30,
        }
    }

    /// The same configuration with another port.
    pub fn with_port(self, port: u16) -> (r: RemoteScanner)
        ensures
            r.port_spec() == port,
            r.host_spec() == self.host_spec(),
            r.use_https_spec() == self.use_https_spec(),
    {
        RemoteScanner { port, ..self }
    }

    /// The same configuration over the secured channel, on its default
    /// port.
    pub fn with_https(self) -> (r: RemoteScanner)
        ensures
            r.use_https_spec(),
            r.port_spec() == 5986u16,
            r.host_spec() == self.host_spec(),
    {
        RemoteScanner { use_https: true, port: 5986, ..self }
    }

    /// The same configuration with certificate verification skipped, for
    /// self-signed endpoints.
    pub fn with_skip_cert_verify(self, skip: bool) -> (r: RemoteScanner)
        ensures
            r.skip_cert_verify_spec() == skip,
            r.host_spec() == self.host_spec(),
    {
        RemoteScanner { skip_cert_verify: skip, ..self }
    }

    /// The same configuration with another overall timeout.
    pub fn with_timeout_secs(self, secs: u64) -> (r: RemoteScanner)
        ensures
            r.timeout_secs_spec() == secs,
            r.host_spec() == self.host_spec(),
    {
        RemoteScanner { timeout_secs: secs, ..self }
    }

    /// The configured host.
    pub fn host(&self) -> (r: &String)
        ensures
            r@ == self.host_spec(),
    {
        &self.host
    }

    /// The configured port.
    pub fn port(&self) -> (r: u16)
        ensures
            r == self.port_spec(),
    {
        self.port
    }

    /// The full interpreter invocation this scanner sends: a function of
    /// the embedded script alone, identical whatever the host, port or
    /// credentials.
    pub fn build_command(&self) -> (r: String)
        ensures
            r@ == command_prefix() + base64_of(utf16le_of(script_text())),
    {
        encode_command(collection_script())
    }

    /// One remote collection pass through the given transport: build the
    /// encoded command, execute it, parse what it printed. What the
    /// transport answers is outside this crate's control, so only the
    /// shape of the result is owed: a returned report re-encodes to the
    /// transport's output (see `handle_transport_outcome`), and in
    /// particular is calendar-stamped. The command sent is a function of
    /// the embedded script alone (`build_command`), so the configured
    /// credentials reach neither the command nor any error this crate
    /// itself constructs.
    pub fn scan<T: WinrmTransport>(&self, transport: &T) -> (r: Result<SysauditReport, ScanError>)
        ensures
            r matches Ok(rep) ==> rep.timestamp.wf(),
    {
        let command = self.build_command();
        RemoteScanner::scan_with_transport(transport, command.as_str())
    }

    /// Drives one command through a transport and parses the output. The
    /// decision logic on the outcome is `handle_transport_outcome`; this
    /// function only makes the call, so of its result only what holds of
    /// every transport outcome can be owed.
    pub fn scan_with_transport<T: WinrmTransport>(transport: &T, command: &str) -> (r: Result<
        SysauditReport,
        ScanError,
    >)
        ensures
            r matches Ok(rep) ==> rep.timestamp.wf(),
    {
        let outcome = transport.execute(command);
        handle_transport_outcome(outcome)
    }
}

/// Turns a transport outcome into the strategy's result: a transport
/// failure passes through unchanged and is never reported as a parse
/// failure; printed text that is not a canonical report yields a
/// deserialization error and never a transport kind; printed text that
/// is the wire form of a report yields exactly that report.
pub fn handle_transport_outcome(outcome: Result<String, ScanError>) -> (r: Result<
    SysauditReport,
    ScanError,
>)
    ensures
        match outcome {
            Err(e) => r == Err::<SysauditReport, ScanError>(e),
            Ok(text) => match r {
                Ok(rep) => text@ == enc_report(rep) && rep.timestamp.wf(),
                Err(e2) => e2 is Deserialization,
            },
        },
{
    match outcome {
        Ok(text) => match decode_report(text.as_str()) {
            Some(rep) => Ok(rep),
            None => Err(
                ScanError::Deserialization(
                    String::from_str("the output is not a canonical report document"),
                ),
            ),
        },
        Err(e) => Err(e),
    }
}

} // verus!
