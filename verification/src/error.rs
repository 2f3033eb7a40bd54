//! Error types: native collection failures and the closed taxonomy that
//! every collection strategy reports.

use vstd::prelude::*;
use vstd::string::StringExecFns;

verus! {

/// A native collection failure, flattened to message text. Structured
/// causes live one layer below this boundary and are not modelled here.
#[derive(Debug)]
pub enum Error {
    /// Registry access error
    Registry(String),
    /// WMI query error
    Wmi(String),
    /// IO error
    Io(String),
    /// CSV writing error
    Csv(String),
    /// JSON serialization error
    Json(String),
    /// Date parsing error
    DateParse(String),
    /// General error with message
    General(String),
}

impl Error {
    /// The message text of this error, for use in contracts.
    pub open spec fn message_spec(&self) -> Seq<char> {
        match self {
            Error::Registry(s) => "Registry error: "@ + s@,
            Error::Wmi(s) => "WMI error: "@ + s@,
            Error::Io(s) => "IO error: "@ + s@,
            Error::Csv(s) => "CSV error: "@ + s@,
            Error::Json(s) => "JSON error: "@ + s@,
            Error::DateParse(s) => "Date parse error: "@ + s@,
            Error::General(s) => s@,
        }
    }

    /// Renders the error as one line of message text.
    pub fn message(&self) -> (r: String)
        ensures
            r@ == self.message_spec(),
    {
        match self {
            Error::Registry(s) => String::from_str("Registry error: ").concat(s.as_str()),
            Error::Wmi(s) => String::from_str("WMI error: ").concat(s.as_str()),
            Error::Io(s) => String::from_str("IO error: ").concat(s.as_str()),
            Error::Csv(s) => String::from_str("CSV error: ").concat(s.as_str()),
            Error::Json(s) => String::from_str("JSON error: ").concat(s.as_str()),
            Error::DateParse(s) => String::from_str("Date parse error: ").concat(s.as_str()),
            Error::General(s) => s.clone(),
        }
    }
}

} // verus!
