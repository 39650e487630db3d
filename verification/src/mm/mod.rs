//! Memory management: addresses, physical frames, address spaces and the
//! translation of user ranges into physical windows.

pub mod address;
pub mod frame_allocator;
pub mod memory_set;
pub mod page_table;
pub mod phys_mem;
