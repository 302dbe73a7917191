//! Line-protocol logic for a small daemon that turns text commands
//! (`c-<addr>`, `d-<target>`, `p-<addr>-<code>`) into invocations of the
//! `adb` device-bridge tool.
//!
//! This crate holds the verified core: the command grammar, the
//! classification of tool invocations, and the per-line dispatch rules.
//! The surrounding program supplies the sockets and spawns the processes.

pub mod dispatch;
pub mod framing;
pub mod grammar;
pub mod invoke;
