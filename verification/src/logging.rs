//! Log levels and the adjustable minimum-level filter.

use vstd::prelude::*;

verus! {

/// Log severity, from least to most severe.
#[derive(Debug, Clone, Copy, PartialEq, Eq, Structural)]
pub enum LoggingLevel {
    Debug,
    Info,
    Notice,
    Warning,
    Error,
    Critical,
    Alert,
    Emergency,
}

/// The rank of a level: 0 for `Debug` up to 7 for `Emergency`.
pub open spec fn level_rank(level: LoggingLevel) -> u8 {
    match level {
        LoggingLevel::Debug => 0,
        LoggingLevel::Info => 1,
        LoggingLevel::Notice => 2,
        LoggingLevel::Warning => 3,
        LoggingLevel::Error => 4,
        LoggingLevel::Critical => 5,
        LoggingLevel::Alert => 6,
        LoggingLevel::Emergency => 7,
    }
}

/// The level of a rank; an unknown rank reads as `Debug`.
pub open spec fn level_of_rank(val: u8) -> LoggingLevel {
    if val == 1 {
        LoggingLevel::Info
    } else if val == 2 {
        LoggingLevel::Notice
    } else if val == 3 {
        LoggingLevel::Warning
    } else if val == 4 {
        LoggingLevel::Error
    } else if val == 5 {
        LoggingLevel::Critical
    } else if val == 6 {
        LoggingLevel::Alert
    } else if val == 7 {
        LoggingLevel::Emergency
    } else {
        LoggingLevel::Debug
    }
}

/// Convert a level to its rank for storage.
fn level_to_u8(level: LoggingLevel) -> (r: u8)
    ensures
        r == level_rank(level),
{
    match level {
        LoggingLevel::Debug => 0,
        LoggingLevel::Info => 1,
        LoggingLevel::Notice => 2,
        LoggingLevel::Warning => 3,
        LoggingLevel::Error => 4,
        LoggingLevel::Critical => 5,
        LoggingLevel::Alert => 6,
        LoggingLevel::Emergency => 7,
    }
}

/// Convert a stored rank back to its level.
fn u8_to_level(val: u8) -> (r: LoggingLevel)
    ensures
        r == level_of_rank(val),
{
    match val {
        0 => LoggingLevel::Debug,
        1 => LoggingLevel::Info,
        2 => LoggingLevel::Notice,
        3 => LoggingLevel::Warning,
        4 => LoggingLevel::Error,
        5 => LoggingLevel::Critical,
        6 => LoggingLevel::Alert,
        7 => LoggingLevel::Emergency,
        _ => LoggingLevel::Debug,
    }
}

/// Reading back the rank of a level gives the level.
pub proof fn lemma_level_roundtrip(level: LoggingLevel)
    ensures
        level_of_rank(level_rank(level)) == level,
{
}

/// Minimum-level filter: messages below the level are dropped.
#[derive(Debug)]
pub struct LogLevelFilter {
    level: u8,
}

impl LogLevelFilter {
    /// The minimum level.
    pub closed spec fn min_level(&self) -> LoggingLevel {
        level_of_rank(self.level)
    }

    /// The stored rank is that of a level.
    #[verifier::type_invariant]
    spec fn wf(&self) -> bool {
        self.level <= 7
    }

    /// Create a new filter with the given minimum level.
    pub fn new(level: LoggingLevel) -> (r: Self)
        ensures
            r.min_level() == level,
    {
        LogLevelFilter { level: level_to_u8(level) }
    }

    /// Get the current minimum level.
    pub fn get(&self) -> (r: LoggingLevel)
        ensures
            r == self.min_level(),
    {
        u8_to_level(self.level)
    }

    /// Set the minimum level.
    pub fn set(&mut self, level: LoggingLevel)
        ensures
            final(self).min_level() == level,
    {
        self.level = level_to_u8(level);
    }

    /// Whether a message at the given level should be logged: its rank is at
    /// least that of the minimum level.
    pub fn should_log(&self, level: LoggingLevel) -> (r: bool)
        ensures
            r == (level_rank(level) >= level_rank(self.min_level())),
    {
        proof {
            use_type_invariant(self);
        }
        level_to_u8(level) >= self.level
    }
}

impl Default for LogLevelFilter {
    fn default() -> (r: Self)
        ensures
            r.min_level() == LoggingLevel::Debug,
    {
        Self::new(LoggingLevel::Debug)
    }
}

/// The levels of the `tracing` crate, most severe first.
#[derive(Debug, Clone, Copy, PartialEq, Eq, Structural)]
pub enum TraceLevel {
    Error,
    Warn,
    Info,
    Debug,
    Trace,
}

/// The `tracing` level a message of the given level is written at: debug
/// as debug, info and notice as info, warning as warn, and the four most
/// severe levels as error.
pub open spec fn trace_level_of(level: LoggingLevel) -> TraceLevel {
    match level {
        LoggingLevel::Debug => TraceLevel::Debug,
        LoggingLevel::Info | LoggingLevel::Notice => TraceLevel::Info,
        LoggingLevel::Warning => TraceLevel::Warn,
        _ => TraceLevel::Error,
    }
}

/// Convert a log level to the `tracing` level it is written at (see
/// `trace_level_of`).
pub fn logging_level_to_tracing(level: LoggingLevel) -> (r: TraceLevel)
    ensures
        r == trace_level_of(level),
{
    match level {
        LoggingLevel::Debug => TraceLevel::Debug,
        LoggingLevel::Info | LoggingLevel::Notice => TraceLevel::Info,
        LoggingLevel::Warning => TraceLevel::Warn,
        LoggingLevel::Error | LoggingLevel::Critical | LoggingLevel::Alert | LoggingLevel::Emergency => TraceLevel::Error,
    }
}

/// A more severe level is never written at a less severe `tracing` level.
pub proof fn lemma_trace_level_monotone(a: LoggingLevel, b: LoggingLevel)
    requires
        level_rank(a) <= level_rank(b),
    ensures
        trace_severity(trace_level_of(a)) <= trace_severity(trace_level_of(b)),
{
}

/// The severity of a `tracing` level, 0 for trace up to 4 for error.
pub open spec fn trace_severity(l: TraceLevel) -> int {
    match l {
        TraceLevel::Trace => 0,
        TraceLevel::Debug => 1,
        TraceLevel::Info => 2,
        TraceLevel::Warn => 3,
        TraceLevel::Error => 4,
    }
}

} // verus!
