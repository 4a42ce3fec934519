//! Verbosity levels of the conversion's reporting.
use vstd::prelude::*;

verus! {

/// How much the conversion reports.
#[derive(Debug, Clone, Copy, PartialEq, Eq, Structural)]
pub enum VerbosityLevel {
    /// Progress display only; warnings and errors as text.
    Quiet,
    /// Informational text.
    Info,
    /// Debugging text.
    Debug,
    /// Everything.
    Trace,
}

/// The most detailed log level that is shown.
#[derive(Debug, Clone, Copy, PartialEq, Eq, Structural)]
pub enum LogLevel {
    Warn,
    Info,
    Debug,
    Trace,
}

/// Which progress display is used.
#[derive(Debug, Clone, Copy, PartialEq, Eq, Structural)]
pub enum NotifierFlavor {
    Simple,
    Enhanced,
}

impl VerbosityLevel {
    /// The level for a count of `-v` flags: none is quiet, one info, two
    /// debug, three or more trace.
    pub fn from_count(level: u8) -> (r: Self)
        ensures
            level == 0 ==> r == VerbosityLevel::Quiet,
            level == 1 ==> r == VerbosityLevel::Info,
            level == 2 ==> r == VerbosityLevel::Debug,
            level >= 3 ==> r == VerbosityLevel::Trace,
    {
        if level == 0 {
            VerbosityLevel::Quiet
        } else if level == 1 {
            VerbosityLevel::Info
        } else if level == 2 {
            VerbosityLevel::Debug
        } else {
            VerbosityLevel::Trace
        }
    }

    /// The log level shown at this verbosity: quiet still shows warnings.
    pub fn to_log_level(self) -> (r: LogLevel)
        ensures
            self == VerbosityLevel::Quiet ==> r == LogLevel::Warn,
            self == VerbosityLevel::Info ==> r == LogLevel::Info,
            self == VerbosityLevel::Debug ==> r == LogLevel::Debug,
            self == VerbosityLevel::Trace ==> r == LogLevel::Trace,
    {
        match self {
            VerbosityLevel::Quiet => LogLevel::Warn,
            VerbosityLevel::Info => LogLevel::Info,
            VerbosityLevel::Debug => LogLevel::Debug,
            VerbosityLevel::Trace => LogLevel::Trace,
        }
    }

    /// Whether the progress display replaces text logs.
    pub fn uses_progress_display(self) -> (r: bool)
        ensures
            r == (self == VerbosityLevel::Quiet),
    {
        self == VerbosityLevel::Quiet
    }
}

} // verus!
