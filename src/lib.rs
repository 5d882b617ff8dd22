//! Runs firmware tests on an attached target through a debugger, decodes the target's
//! log frames and turns them into test results with requirement coverage.
use vstd::prelude::*;

pub mod cfg;
pub mod collect;
pub mod coverage;
pub mod decode;
pub mod frame;
pub mod marker;
pub mod path;
pub mod session;
pub mod text;

use crate::coverage::CoverageError;

verus! {

/// Port of the local log-transport server when the configuration names none.
pub const DEFAULT_RTT_PORT: u16 = 19021;

/// Longest time, in seconds, to wait for the debugger's readiness and the transport
/// connection.
pub const SETUP_RTT_TIMEOUT_SEC: u64 = 60;

/// Longest time, in seconds, of one test run.
pub const EXECUTION_TIMEOUT_SEC: u64 = 3600;

#[derive(Debug)]
pub enum RunnerError {
    /// The readiness marker did not appear, or the transport did not connect, in time.
    ReadinessTimeout,
    /// The debugger did not exit in time.
    ExecutionTimeout,
    /// The transport connection failed for another reason than refusal or timeout.
    Connect(String),
    Gdb(String),
    GdbScript(String),
    Config(String),
    Defmt(String),
    Setup(String),
    PreRunner(String),
    PostRunner(String),
    Coverage(CoverageError),
}

} // verus!
