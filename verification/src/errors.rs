//! Error kinds surfaced by the load-generation core.

use vstd::prelude::*;

verus! {

/// A configuration problem, detected before any worker is spawned.
#[derive(Clone, Debug, PartialEq, Eq)]
pub enum ConfigError {
    /// No subcommand was given on the command line.
    NoSubcommand,
    /// Both `iterations` and `execution_time` are zero, so no termination
    /// mode is in effect.
    NoTerminationMode,
    /// `thread_count` is zero.
    ZeroThreadCount,
    /// `rampup_time` is zero.
    ZeroRampUp,
    /// A numeric setting that must be non-zero was zero.
    ValueZero,
    /// A file path that must name a `.json` file does not.
    NotJsonFile,
}

/// A failure that aborts the whole run.
#[derive(Clone, Debug)]
pub enum FatalError {
    /// A request failed at the transport level while `continue_on_error`
    /// was off; the name of the failing request is carried along.
    RequestFailed(String),
    /// A worker terminated without reporting its results.
    InternalConsistency,
}

/// A transport-level failure returned by an HTTP client implementation.
#[derive(Clone, Debug)]
pub struct ClientError {
    pub message: String,
}

} // verus!
