//! The system calls that the trap layer hands to the kernel.

pub mod process;
