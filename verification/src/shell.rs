//! The external execution collaborator: running one script through the
//! system shell and capturing its standard output.
//!
//! Everything here is the boundary to the `subprocess` crate; the engine
//! treats the captured text as arbitrary, so nothing about a script's
//! behaviour is assumed anywhere in this library.

use vstd::prelude::*;

verus! {

/// The declared shape of `std::io::Error`, the error that `subprocess`
/// reports when a script's process cannot be spawned or its output cannot
/// be collected.  The value is opaque here; it is only carried to the
/// caller.
#[verifier::external_type_specification]
#[verifier::external_body]
pub struct ExIoError(std::io::Error);

/// Why a whole expansion was abandoned.  The first failure aborts the
/// expansion; no partial output is kept.
#[derive(Debug)]
pub enum ExecutionFailure {
    /// Running one embedded script failed: its process could not be
    /// spawned, or its output could not be collected.
    Process(std::io::Error),
    /// The expansion met more regions than the engine's step bound, one
    /// step per executed script.  The bound is far beyond anything a real
    /// document reaches; only a script that keeps reintroducing its own
    /// tags under `recur` can exhaust it, and the engine then gives up
    /// rather than run forever.
    StepLimit,
}

/// Relies on `subprocess::Exec::shell` and `subprocess::Exec::capture`:
/// the script is handed to the system shell, the process is waited for to
/// completion, and the bytes it wrote to standard output come back as a
/// string (`Capture::stdout_str`); a spawn or capture failure comes back
/// as the `std::io::Error` that `capture` reported.  A process that runs
/// but exits with a non-zero status is not a failure: its captured output
/// is returned like any other.  Nothing is stated about the captured text,
/// which depends on the script and on the environment; the callers handle
/// every possible value.
#[verifier::external_body]
pub(crate) fn capture_script_stdout(script: &str) -> Result<String, std::io::Error> {
    match subprocess::Exec::shell(script).capture() {
        Ok(capture) => Ok(capture.stdout_str()),
        Err(e) => Err(e),
    }
}

} // verus!
