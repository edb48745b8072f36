//! Status codec: turns what the system reports of an ended process into the
//! shell's exit code.

use vstd::prelude::*;

verus! {

/// How a child process ended, as the operating system reports it.
#[derive(Debug, Clone, Copy, PartialEq, Eq)]
pub enum ProcessStatus {
    /// Normal exit with the given code.
    Exited(i32),
    /// Killed by the given signal.
    Signaled(i32),
    /// Neither is known.
    Unknown,
}

/// The shell's exit code for an ended process: the code of a normal exit,
/// `128 + signal` for one a signal killed, 1 otherwise.
pub open spec fn exit_code_spec(status: ProcessStatus) -> int {
    match status {
        ProcessStatus::Exited(code) => code as int,
        ProcessStatus::Signaled(signal) => 128 + signal,
        ProcessStatus::Unknown => 1,
    }
}

/// Converts a process status into shell-style exit code semantics.
/// A signal number must leave room for the offset of 128.
pub fn exit_code(status: ProcessStatus) -> (code: i32)
    requires
        status matches ProcessStatus::Signaled(signal) ==> signal <= i32::MAX - 128,
    ensures
        code == exit_code_spec(status),
{
    match status {
        ProcessStatus::Exited(code) => code,
        ProcessStatus::Signaled(signal) => 128 + signal,
        ProcessStatus::Unknown => 1,
    }
}

/// The low seven bits of a raw wait status: the terminating signal, zero
/// for a normal exit, all ones for a stopped process.
pub open spec fn wait_status_low(raw: i32) -> i32 {
    raw & 0x7f
}

pub open spec fn wait_status_exited(raw: i32) -> bool {
    wait_status_low(raw) == 0
}

pub open spec fn wait_status_exit_code(raw: i32) -> i32 {
    (raw >> 8) & 0xff
}

pub open spec fn wait_status_signaled(raw: i32) -> bool {
    wait_status_low(raw) != 0 && wait_status_low(raw) != 0x7f
}

pub open spec fn wait_status_stopped(raw: i32) -> bool {
    raw & 0xff == 0x7f
}

/// `libc::WIFEXITED`: the low seven bits of the status are zero.
pub assume_specification[ libc::WIFEXITED ](status: libc::c_int) -> (r: bool)
    ensures
        r == wait_status_exited(status),
;

/// `libc::WEXITSTATUS`: bits 8 to 15 of the status.
pub assume_specification[ libc::WEXITSTATUS ](status: libc::c_int) -> (r: libc::c_int)
    ensures
        r == wait_status_exit_code(status),
;

/// `libc::WIFSIGNALED`: the low seven bits are neither zero (an exit) nor
/// all ones (a stop).
pub assume_specification[ libc::WIFSIGNALED ](status: libc::c_int) -> (r: bool)
    ensures
        r == wait_status_signaled(status),
;

/// `libc::WTERMSIG`: the low seven bits of the status.
pub assume_specification[ libc::WTERMSIG ](status: libc::c_int) -> (r: libc::c_int)
    ensures
        r == wait_status_low(status),
;

/// `libc::WIFSTOPPED`: the low byte of the status is `0x7f`.
pub assume_specification[ libc::WIFSTOPPED ](status: libc::c_int) -> (r: bool)
    ensures
        r == wait_status_stopped(status),
;

/// The exit code that a raw wait status carries, if the process has ended:
/// its exit code, or `128 + signal`.
pub open spec fn wait_status_code(raw: i32) -> Option<i32> {
    if wait_status_exited(raw) {
        Some(wait_status_exit_code(raw))
    } else if wait_status_signaled(raw) {
        Some((128 + wait_status_low(raw)) as i32)
    } else {
        None
    }
}

proof fn lemma_wait_status_ranges(raw: i32)
    ensures
        0 <= wait_status_low(raw) <= 127,
        0 <= wait_status_exit_code(raw) <= 255,
{
    assert(0 <= raw & 0x7f <= 127) by (bit_vector);
    assert(0 <= (raw >> 8) & 0xff <= 255) by (bit_vector);
}

/// Decodes a raw wait status: `Some(code)` for a process that exited or
/// was killed, `None` while it has not ended (stopped or continued).
pub fn exit_code_from_wait_status(raw_status: i32) -> (r: Option<i32>)
    ensures
        r == wait_status_code(raw_status),
        r matches Some(code) ==> 0 <= code <= 255,
{
    proof {
        lemma_wait_status_ranges(raw_status);
    }
    if libc::WIFEXITED(raw_status) {
        return Some(libc::WEXITSTATUS(raw_status));
    }
    if libc::WIFSIGNALED(raw_status) {
        let signal = libc::WTERMSIG(raw_status);
        return Some(128 + signal);
    }
    None
}

} // verus!
