//! Task scheduling and address translation core of a small multitasking kernel.
//!
//! The kernel runs a fixed set of user tasks on one CPU. This crate holds the
//! bookkeeping of that kernel: the task table and its round-robin scheduler,
//! the per-task address spaces, and the translation of user addresses into
//! windows of physical memory. Every state change is a function from the old
//! state to the new one; the context switch itself, the clock and the trap
//! entry are performed by the caller.

pub mod config;
pub mod mm;
pub mod syscall;
pub mod task;
pub mod trap;
