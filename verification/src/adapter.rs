//! The sandbox adapter contract.
//!
//! Every external tool invocation crosses this boundary. The process
//! spawning, stream capture, and resource limiting are outside work; the
//! core owns the deterministic classification of what such an invocation
//! reported, and the explicit policy table of which failures a retry can
//! fix.

use vstd::prelude::*;

use crate::error::ErrorKind;
use crate::pipeline::{StepOutcome, StepOutput};

verus! {

/// The retry policy table: resource-limit failures and tool failures other
/// than a missing binary are expected to be fixed by retrying; a missing
/// binary, bad input, or filesystem fault is not.
pub open spec fn spec_transient(kind: ErrorKind, missing_binary: bool) -> bool {
    ||| kind == ErrorKind::ResourceLimit
    ||| (kind == ErrorKind::ToolError && !missing_binary)
}

/// The isolation boundary around every external tool invocation.
pub struct Adapter;

impl Adapter {
    /// Classifies what one sandboxed invocation observably did.
    ///
    /// A missing binary is a permanent `ToolError`; exceeding the time or
    /// memory cap is a `ResourceLimit`, reported as such rather than
    /// silently truncated, and retried; a nonzero exit is a transient
    /// `ToolError` carrying the captured standard-error text verbatim; a
    /// clean exit yields the produced output.
    pub fn classify_run(
        missing_binary: bool,
        timed_out: bool,
        mem_exceeded: bool,
        exit_ok: bool,
        stderr: String,
        output: StepOutput,
    ) -> (r: StepOutcome)
        ensures
            match r {
                StepOutcome::Completed(out) => !missing_binary && !timed_out && !mem_exceeded
                    && exit_ok && out == output,
                StepOutcome::Failed { kind, message, transient } => {
                    &&& message@ == stderr@
                    &&& transient == spec_transient(kind, missing_binary)
                    &&& if missing_binary {
                        kind == ErrorKind::ToolError
                    } else if timed_out || mem_exceeded {
                        kind == ErrorKind::ResourceLimit
                    } else {
                        kind == ErrorKind::ToolError && !exit_ok
                    }
                },
            },
            r is Completed <==> (!missing_binary && !timed_out && !mem_exceeded && exit_ok),
    {
        if missing_binary {
            StepOutcome::Failed { kind: ErrorKind::ToolError, message: stderr, transient: false }
        } else if timed_out || mem_exceeded {
            StepOutcome::Failed {
                kind: ErrorKind::ResourceLimit,
                message: stderr,
                transient: true,
            }
        } else if !exit_ok {
            StepOutcome::Failed { kind: ErrorKind::ToolError, message: stderr, transient: true }
        } else {
            StepOutcome::Completed(output)
        }
    }
}

} // verus!
