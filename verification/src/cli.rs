//! The server's command-line configuration and the log level it selects.

use vstd::prelude::*;

use crate::commands::same_text;
use crate::text::{lowercase_of, to_lowercase};

verus! {

/// The command-line arguments of the server.
pub struct Cli {
    /// The port to bind the server to.
    pub port: u16,
    /// The address to bind the server to.
    pub addr: String,
    /// Optional username for authentication.
    pub username: Option<String>,
    /// Optional password for authentication.
    pub password: Option<String>,
    /// Whether debug mode is enabled.
    pub debug_mode: bool,
    /// The log level: error, warn, info, debug or trace.
    pub log_level: String,
}

/// How much the server logs.
#[derive(Debug, Clone, Copy, PartialEq, Eq, Structural)]
pub enum LogLevel {
    Error,
    Warn,
    Info,
    Debug,
    Trace,
}

/// The level that a lower-case level name selects; any other name selects `Info`.
pub open spec fn level_named(name: Seq<char>) -> LogLevel {
    if name == "error"@ {
        LogLevel::Error
    } else if name == "warn"@ {
        LogLevel::Warn
    } else if name == "info"@ {
        LogLevel::Info
    } else if name == "debug"@ {
        LogLevel::Debug
    } else if name == "trace"@ {
        LogLevel::Trace
    } else {
        LogLevel::Info
    }
}

/// The level that the lower-case level name `name` selects.
pub fn level_for(name: &str) -> (r: LogLevel)
    ensures
        r == level_named(name@),
{
    if same_text(name, "error") {
        LogLevel::Error
    } else if same_text(name, "warn") {
        LogLevel::Warn
    } else if same_text(name, "info") {
        LogLevel::Info
    } else if same_text(name, "debug") {
        LogLevel::Debug
    } else if same_text(name, "trace") {
        LogLevel::Trace
    } else {
        LogLevel::Info
    }
}

impl Cli {
    /// The log level that the `log_level` argument selects, in any letter case.
    pub fn max_log_level(&self) -> (r: LogLevel)
        ensures
            r == level_named(lowercase_of(self.log_level@)),
    {
        let lower = to_lowercase(self.log_level.as_str());
        level_for(lower.as_str())
    }
}

} // verus!
