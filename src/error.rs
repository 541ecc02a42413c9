//! The engine's error kinds.
use vstd::prelude::*;

verus! {

/// What went wrong, by kind.
#[derive(Clone, Copy, Debug, PartialEq, Eq, Structural)]
pub enum SpringError {
    /// Syntactic or semantic SQL error, or a type mismatch.
    Sql,
    /// Unrecognized key or value in `OPTIONS`.
    InvalidOption,
    /// A malformed row.
    InvalidFormat,
    /// A missing queue, an out-of-range column, or contention at a reconfiguration.
    Unavailable,
    /// A foreign reader or writer failed.
    ForeignIo,
    /// A foreign source did not answer in time.
    ForeignSourceTimeout,
    /// No input arrived in time.
    InputTimeout,
    /// A worker or the coordinator observed a corrupt lock.
    ThreadPoisoned,
}

/// How loudly a background occurrence of an error is reported.
#[derive(Clone, Copy, Debug, PartialEq, Eq, Structural)]
pub enum LogLevel {
    Trace,
    Warn,
    Error,
}

pub open spec fn log_level_of(e: SpringError) -> LogLevel {
    match e {
        SpringError::ForeignSourceTimeout | SpringError::InputTimeout => LogLevel::Trace,
        SpringError::ForeignIo | SpringError::Unavailable => LogLevel::Warn,
        SpringError::InvalidOption | SpringError::InvalidFormat | SpringError::Sql
        | SpringError::ThreadPoisoned => LogLevel::Error,
    }
}

/// The level at which a worker logs an error raised in the background:
/// timeouts are expected back-pressure (trace), I/O and unavailability are
/// operational (warn), the rest are errors.
pub fn handle_error(e: SpringError) -> (r: LogLevel)
    ensures
        r == log_level_of(e),
{
    match e {
        SpringError::ForeignSourceTimeout | SpringError::InputTimeout => LogLevel::Trace,
        SpringError::ForeignIo | SpringError::Unavailable => LogLevel::Warn,
        SpringError::InvalidOption | SpringError::InvalidFormat | SpringError::Sql
        | SpringError::ThreadPoisoned => LogLevel::Error,
    }
}

} // verus!
