//! Read-only auditing of a Windows machine's configuration: system
//! inventory, installed software, and industrial-automation products,
//! collected either in-process on the local machine or on a remote host
//! reached through a command-execution transport.
//!
//! Every collection strategy converges on one canonical report shape,
//! [`report::SysauditReport`], or fails with one of the closed set of
//! error kinds in [`scanner::ScanError`].

pub mod collate;
pub mod date;
pub mod encoding;
pub mod error;
pub mod industrial;
pub mod local;
pub mod numtext;
pub mod payload;
pub mod remote;
pub mod report;
pub mod scanner;
pub mod software;
pub mod transport;
pub mod updates;
pub mod system;
pub mod text;
pub mod wire;

pub use date::{Date, Timestamp};
pub use error::Error;
pub use industrial::{IndustrialScanner, IndustrialSoftware, Vendor};
pub use local::LocalScanner;
pub use remote::RemoteScanner;
pub use report::SysauditReport;
pub use transport::WinrmTransport;
pub use scanner::ScanError;
pub use software::{RegistrySource, Software, SoftwareScanner};
pub use system::{NetworkInterface, SystemInfo};
pub use updates::WindowsUpdate;
