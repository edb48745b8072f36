//! Job-control primitives: what the shell makes of the answers of the
//! system calls that place processes in groups, signal them and wait for
//! them. The calls themselves are made by the caller.

use vstd::prelude::*;
use crate::status::{exit_code_from_wait_status, wait_status_code, wait_status_stopped};

verus! {

/// What a stop-aware wait found.
#[derive(Debug, Clone, Copy, PartialEq, Eq, Structural)]
pub enum WaitOutcome {
    /// The process has ended; the shell's exit code for it.
    Exited(i32),
    /// The process was stopped.
    Stopped,
}

/// Why a system call failed, as far as the shell tells the reasons apart.
#[derive(Debug, Clone, Copy, PartialEq, Eq, Structural)]
pub enum CallError {
    /// A signal interrupted the call.
    Interrupted,
    /// There is no such process or group.
    NoSuchProcess,
    /// The call was not permitted.
    PermissionDenied,
    /// Anything else.
    Other,
}

/// What to do after a system call has returned.
#[derive(Debug, Clone, Copy, PartialEq, Eq, Structural)]
pub enum NextStep {
    /// The call has done its work, or need not be done.
    Done,
    /// Make the call again.
    Retry,
    /// Give up and report the error.
    Fail,
}

/// What a raw wait status means to a stop-aware wait: stopped, ended with
/// an exit code, or neither, in which case the wait goes on.
pub open spec fn classify_wait_spec(raw: i32) -> Option<WaitOutcome> {
    if wait_status_stopped(raw) {
        Some(WaitOutcome::Stopped)
    } else {
        match wait_status_code(raw) {
            Some(code) => Some(WaitOutcome::Exited(code)),
            None => None,
        }
    }
}

/// Decides what a wait that returned has found.
pub fn classify_wait(raw_status: i32) -> (r: Option<WaitOutcome>)
    ensures
        r == classify_wait_spec(raw_status),
{
    if libc::WIFSTOPPED(raw_status) {
        return Some(WaitOutcome::Stopped);
    }
    match exit_code_from_wait_status(raw_status) {
        Some(code) => Some(WaitOutcome::Exited(code)),
        None => None,
    }
}

/// Whether a process-group id can be signalled or given the terminal.
pub fn is_valid_group(pgid: i32) -> (r: bool)
    ensures
        r == (pgid > 0),
{
    pgid > 0
}

/// After placing a process in a group: an interrupted call is made again;
/// a process that is already gone or has already replaced its image has
/// lost the race with its parent or child, which is as good as success.
pub fn after_set_process_group(result: Result<(), CallError>) -> (r: NextStep)
    ensures
        r == match result {
            Ok(_) => NextStep::Done,
            Err(CallError::Interrupted) => NextStep::Retry,
            Err(CallError::PermissionDenied) => NextStep::Done,
            Err(CallError::NoSuchProcess) => NextStep::Done,
            Err(CallError::Other) => NextStep::Fail,
        },
{
    match result {
        Ok(_) => NextStep::Done,
        Err(CallError::Interrupted) => NextStep::Retry,
        Err(CallError::PermissionDenied) => NextStep::Done,
        Err(CallError::NoSuchProcess) => NextStep::Done,
        Err(CallError::Other) => NextStep::Fail,
    }
}

/// After any other call of job control (reading a process group, sending
/// a continue, handing the terminal over, waiting): an interrupted call
/// is made again, every other error is reported.
pub fn after_call(result: Result<(), CallError>) -> (r: NextStep)
    ensures
        r == match result {
            Ok(_) => NextStep::Done,
            Err(CallError::Interrupted) => NextStep::Retry,
            Err(_) => NextStep::Fail,
        },
{
    match result {
        Ok(_) => NextStep::Done,
        Err(CallError::Interrupted) => NextStep::Retry,
        Err(_) => NextStep::Fail,
    }
}

} // verus!
