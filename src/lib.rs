//! Parses log lines into records, filters them by message pattern and time range,
//! and counts the records of each level.

pub mod analyzer;
pub mod args;
pub mod log_entry;
pub mod timestamp;

pub use analyzer::LogAnalyzer;
pub use args::{Args, ArgsError};
pub use log_entry::LogEntry;
pub use timestamp::Timestamp;
