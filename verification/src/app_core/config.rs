//! Engine configuration values that hold no floating-point data.
use vstd::prelude::*;

verus! {

/// Logging verbosity, from least to most verbose.
#[derive(Debug, Clone, Copy, PartialEq, Eq, Structural)]
pub enum LogLevel {
    Error,
    Warn,
    Info,
    Debug,
    Trace,
}

} // verus!
