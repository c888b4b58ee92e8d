//! How child processes end.

use vstd::prelude::*;

verus! {

#[derive(Clone, Copy, Debug, PartialEq, Eq, Structural)]
pub enum WaitStatus {
    Exited(i32),
    Signaled(i32),
    StillRunning,
    NoChildren,
}

/// Calls `libc::WIFEXITED`: the child exited by itself if no signal is noted.
#[verifier::external_body]
fn exited(status: i32) -> (yes: bool)
    ensures
        yes == (status & 0x7f == 0),
{
    libc::WIFEXITED(status)
}

/// Calls `libc::WEXITSTATUS`: the second octet of the status.
#[verifier::external_body]
fn exit_code(status: i32) -> (code: i32)
    ensures
        code == (status >> 8) & 0xff,
{
    libc::WEXITSTATUS(status)
}

/// Calls `libc::WIFSIGNALED`: a signal ended the child unless the low seven bits
/// are all clear or all set.
#[verifier::external_body]
fn signaled(status: i32) -> (yes: bool)
    ensures
        yes == (status & 0x7f != 0 && status & 0x7f != 0x7f),
{
    libc::WIFSIGNALED(status)
}

/// Calls `libc::WTERMSIG`: the low seven bits of the status.
#[verifier::external_body]
fn signal_number(status: i32) -> (signal: i32)
    ensures
        signal == status & 0x7f,
{
    libc::WTERMSIG(status)
}

/// What a status from `waitpid` says of a child that changed.
pub open spec fn status_of(status: i32) -> WaitStatus {
    if status & 0x7f == 0 {
        WaitStatus::Exited((status >> 8) & 0xff)
    } else if status & 0x7f != 0x7f {
        WaitStatus::Signaled(status & 0x7f)
    } else {
        WaitStatus::StillRunning
    }
}

/// Reads a status from `waitpid`.
#[must_use]
pub fn decode_status(status: i32) -> (decoded: WaitStatus)
    ensures
        decoded == status_of(status),
        decoded matches WaitStatus::Signaled(signal) ==> 0 < signal < 0x7f,
{
    assert(0 <= status & 0x7f <= 0x7f) by (bit_vector);
    if exited(status) {
        WaitStatus::Exited(exit_code(status))
    } else if signaled(status) {
        WaitStatus::Signaled(signal_number(status))
    } else {
        WaitStatus::StillRunning
    }
}

/// The code that a child exits with when its command could not be run: 127 if
/// it was not found, otherwise 126.
#[must_use]
pub fn exec_failure_code(not_found: bool) -> (code: i32)
    ensures
        code == if not_found {
            127int
        } else {
            126
        },
{
    if not_found {
        127
    } else {
        126
    }
}

/// The error number for "no child processes".
pub const ECHILD: i32 = 10;

/// What `waitpid` of one child says: its result, the error number if it failed,
/// and the status if it reports one. Other errors are handed on.
pub fn wait_pid(result: i32, error: i32, status: i32) -> (outcome: Result<WaitStatus, i32>)
    ensures
        outcome == if result == -1 {
            if error == ECHILD {
                Ok(WaitStatus::NoChildren)
            } else {
                Err(error)
            }
        } else if result == 0 {
            Ok(WaitStatus::StillRunning)
        } else {
            Ok(status_of(status))
        },
{
    if result == -1 {
        if error == ECHILD {
            Ok(WaitStatus::NoChildren)
        } else {
            Err(error)
        }
    } else if result == 0 {
        Ok(WaitStatus::StillRunning)
    } else {
        Ok(decode_status(status))
    }
}

/// What `waitpid` of any child says, without waiting: nothing if there are no
/// children, -1 as the child if none has changed.
pub fn wait_any_nohang(result: i32, error: i32, status: i32) -> (outcome: Result<
    Option<(i32, WaitStatus)>,
    i32,
>)
    ensures
        outcome == if result == -1 {
            if error == ECHILD {
                Ok(None)
            } else {
                Err(error)
            }
        } else if result == 0 {
            Ok(Some((-1i32, WaitStatus::StillRunning)))
        } else {
            Ok(Some((result, status_of(status))))
        },
        outcome matches Ok(Some((_, WaitStatus::Signaled(signal)))) ==> 0 < signal < 0x7f,
{
    if result == -1 {
        if error == ECHILD {
            Ok(None)
        } else {
            Err(error)
        }
    } else if result == 0 {
        Ok(Some((-1, WaitStatus::StillRunning)))
    } else {
        Ok(Some((result, decode_status(status))))
    }
}

/// A status whose low seven bits are clear is an exit with the code in the next
/// octet. Any other is a signal of that number, but for 127, which only means
/// that the child was stopped.
pub proof fn law_status_tells_how_a_child_ended(status: i32)
    requires
        0 <= status <= 0xffff,
    ensures
        status % 128 == 0 ==> status_of(status) == WaitStatus::Exited((status / 256) as i32),
        0 < status % 128 < 127 ==> status_of(status) == WaitStatus::Signaled((status % 128) as i32),
        status % 128 == 127 ==> status_of(status) == WaitStatus::StillRunning,
{
    assert(status & 0x7f == status % 128 && (status >> 8) & 0xff == status / 256) by (bit_vector)
        requires
            0 <= status <= 0xffff,
    ;
}

} // verus!
