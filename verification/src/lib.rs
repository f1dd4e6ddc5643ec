//! Verified core of a DNS reachability and tampering measurement tool.
//!
//! The library models probe targets, probe outcomes, running summary
//! statistics, the bounded-concurrency scheduling protocol, and the
//! pollution (tampering) comparator. Network I/O, terminal rendering and
//! configuration loading live outside the library; they hand plain values
//! in and take plain values back.

pub mod error;
pub mod format;
pub mod ip;
pub mod live;
pub mod loader;
pub mod pollution;
pub mod scheduler;
pub mod speedtest;
pub mod stats;
pub mod types;

pub use error::Error;
pub use format::{Cli, Commands, OutputFormat};
pub use ip::IpAddress;
pub use live::App;
pub use loader::ConfigLoader;
pub use pollution::{PollutionChecker, PollutionResult};
pub use scheduler::{ProgressEvent, Scheduler};
pub use speedtest::SpeedTester;
pub use types::{DnsList, DnsServer, DnsStatus, SpeedTestResult, TestSummary};
