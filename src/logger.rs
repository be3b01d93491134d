use vstd::prelude::*;

use crate::text::{lower_of, same_text, to_lower};

verus! {

/// How much is logged, from nothing to everything.
#[derive(Debug, Clone, Copy, PartialEq, Eq, Structural)]
pub enum LogLevel {
    Off,
    Error,
    Warn,
    Info,
    Debug,
    Trace,
}

/// Log configuration options.
#[derive(Debug)]
pub struct LogConfig {
    /// Log level for console output.
    pub console_level: LogLevel,
    /// Log level for file output.
    pub file_level: LogLevel,
    /// Path to the log file; `None` means no file logging.
    pub log_file: Option<String>,
}

impl Default for LogConfig {
    fn default() -> (r: Self)
        ensures
            r.console_level == LogLevel::Info,
            r.file_level == LogLevel::Debug,
            r.log_file is None,
    {
        LogConfig { console_level: LogLevel::Info, file_level: LogLevel::Debug, log_file: None }
    }
}

/// The level a lower-case name gives; an unknown name gives `Info`.
pub open spec fn level_named(lower: Seq<char>) -> LogLevel {
    if lower == "off"@ {
        LogLevel::Off
    } else if lower == "error"@ {
        LogLevel::Error
    } else if lower == "warn"@ {
        LogLevel::Warn
    } else if lower == "info"@ {
        LogLevel::Info
    } else if lower == "debug"@ {
        LogLevel::Debug
    } else if lower == "trace"@ {
        LogLevel::Trace
    } else {
        LogLevel::Info
    }
}

/// The level that `level` names, in any case.
pub fn parse_log_level(level: &str) -> (r: LogLevel)
    ensures
        r == level_named(lower_of(level@)),
{
    let lower = to_lower(level);
    let l = lower.as_str();
    if same_text(l, "off") {
        LogLevel::Off
    } else if same_text(l, "error") {
        LogLevel::Error
    } else if same_text(l, "warn") {
        LogLevel::Warn
    } else if same_text(l, "info") {
        LogLevel::Info
    } else if same_text(l, "debug") {
        LogLevel::Debug
    } else if same_text(l, "trace") {
        LogLevel::Trace
    } else {
        LogLevel::Info
    }
}

} // verus!
