//! Constants shared by the memory and task modules.

use vstd::prelude::*;

verus! {

/// Size of one page in bytes.
pub const PAGE_SIZE: usize = 4096;

/// Number of syscall identifiers that are counted per task.
pub const MAX_SYSCALL_NUM: usize = 500;

} // verus!
