//! The external-tool invocation model: the argument vectors handed to the
//! `adb` device-bridge tool for each command, and the classification of a
//! finished invocation into a typed success or failure.
//!
//! Spawning the process itself is I/O and lives outside this crate; the
//! caller hands the captured outcome back to [`classify_outcome`].

use vstd::prelude::*;
use crate::grammar::Command;

verus! {

/// What one finished tool invocation produced: its exit-success flag and
/// its captured output streams, verbatim.
#[derive(Debug, PartialEq, Eq)]
pub struct InvocationResult {
    pub success: bool,
    pub stdout: Vec<u8>,
    pub stderr: Vec<u8>,
}

/// Why an invocation failed: the process never started, or it ran and
/// exited unsuccessfully, with its exit code where the system reported one
/// (none when it was ended by a signal).
#[derive(Debug, PartialEq, Eq)]
pub enum InvocationError {
    SpawnFailed,
    ToolFailed { exit_code: Option<i32> },
}

/// The bytes of the tool subcommand `connect`.
pub open spec fn connect_word() -> Seq<u8> {
    seq![99u8, 111u8, 110u8, 110u8, 101u8, 99u8, 116u8]
}

/// The bytes of the tool subcommand `disconnect`.
pub open spec fn disconnect_word() -> Seq<u8> {
    seq![100u8, 105u8, 115u8, 99u8, 111u8, 110u8, 110u8, 101u8, 99u8, 116u8]
}

/// The bytes of the tool subcommand `pair`.
pub open spec fn pair_word() -> Seq<u8> {
    seq![112u8, 97u8, 105u8, 114u8]
}

fn word_connect() -> (v: Vec<u8>)
    ensures
        v@ == connect_word(),
{
    let mut v: Vec<u8> = Vec::new();
    v.push(99);
    v.push(111);
    v.push(110);
    v.push(110);
    v.push(101);
    v.push(99);
    v.push(116);
    proof {
        assert(v@ =~= connect_word());
    }
    v
}

fn word_disconnect() -> (v: Vec<u8>)
    ensures
        v@ == disconnect_word(),
{
    let mut v: Vec<u8> = Vec::new();
    v.push(100);
    v.push(105);
    v.push(115);
    v.push(99);
    v.push(111);
    v.push(110);
    v.push(110);
    v.push(101);
    v.push(99);
    v.push(116);
    proof {
        assert(v@ =~= disconnect_word());
    }
    v
}

fn word_pair() -> (v: Vec<u8>)
    ensures
        v@ == pair_word(),
{
    let mut v: Vec<u8> = Vec::new();
    v.push(112);
    v.push(97);
    v.push(105);
    v.push(114);
    proof {
        assert(v@ =~= pair_word());
    }
    v
}

fn clone_bytes(v: &Vec<u8>) -> (r: Vec<u8>)
    ensures
        r@ == v@,
{
    vstd::slice::slice_to_vec(v.as_slice())
}

/// The argument vector the tool is invoked with for one parsed command:
/// `["connect", address]`, `["disconnect", target]` or
/// `["pair", address, code]`; an Unrecognized line triggers no invocation.
pub fn invocation_args(cmd: &Command) -> (r: Option<Vec<Vec<u8>>>)
    ensures
        match cmd {
            Command::Connect { address } => (r matches Some(a) && a@.len() == 2 && a@[0]@
                == connect_word() && a@[1]@ == address@),
            Command::Disconnect { target } => (r matches Some(a) && a@.len() == 2 && a@[0]@
                == disconnect_word() && a@[1]@ == target@),
            Command::Pair { address, code } => (r matches Some(a) && a@.len() == 3 && a@[0]@
                == pair_word() && a@[1]@ == address@ && a@[2]@ == code@),
            Command::Unrecognized => r is None,
        },
{
    match cmd {
        Command::Connect { address } => {
            let mut args: Vec<Vec<u8>> = Vec::new();
            args.push(word_connect());
            args.push(clone_bytes(address));
            Some(args)
        },
        Command::Disconnect { target } => {
            let mut args: Vec<Vec<u8>> = Vec::new();
            args.push(word_disconnect());
            args.push(clone_bytes(target));
            Some(args)
        },
        Command::Pair { address, code } => {
            let mut args: Vec<Vec<u8>> = Vec::new();
            args.push(word_pair());
            args.push(clone_bytes(address));
            args.push(clone_bytes(code));
            Some(args)
        },
        Command::Unrecognized => None,
    }
}

/// Turns a finished invocation, as the operating system reported it, into
/// the typed result: success with the captured streams exactly when the
/// process exited successfully, and otherwise the failure with its exit
/// code. Only the exit status decides; the output text never does.
pub fn classify_outcome(success: bool, exit_code: Option<i32>, stdout: Vec<u8>, stderr: Vec<u8>)
    -> (r: Result<InvocationResult, InvocationError>)
    ensures
        success ==> (r matches Ok(inv) && inv.success && inv.stdout@ == stdout@ && inv.stderr@
            == stderr@),
        !success ==> (r matches Err(e) && e == (InvocationError::ToolFailed { exit_code })),
{
    if success {
        Ok(InvocationResult { success, stdout, stderr })
    } else {
        Err(InvocationError::ToolFailed { exit_code })
    }
}

} // verus!
