//! Virtual addresses and page arithmetic.

use vstd::prelude::*;
use crate::config::PAGE_SIZE;

verus! {

/// Number of the page that holds the address `addr`.
pub open spec fn page_of(addr: int) -> int {
    addr / (PAGE_SIZE as int)
}

/// Offset of the address `addr` inside its page.
pub open spec fn offset_of(addr: int) -> int {
    addr % (PAGE_SIZE as int)
}

/// A frame whose last byte still has an address that fits a machine word.
pub open spec fn frame_in_range(ppn: usize) -> bool {
    (ppn + 1) * PAGE_SIZE <= usize::MAX
}

/// A page whose first byte has an address that fits a machine word.
pub open spec fn page_in_range(vpn: usize) -> bool {
    vpn * PAGE_SIZE <= usize::MAX
}

/// A virtual address as handed in by a user program.
#[derive(Clone, Copy, PartialEq, Eq, Structural, Debug)]
pub struct VirtAddr(pub usize);

impl VirtAddr {
    /// The page that holds this address.
    pub fn floor(&self) -> (vpn: usize)
        ensures
            vpn == page_of(self.0 as int),
            page_in_range(vpn),
    {
        let vpn: usize = self.0 / PAGE_SIZE;
        assert(vpn * PAGE_SIZE <= self.0) by (nonlinear_arith)
            requires
                vpn == self.0 / PAGE_SIZE,
                PAGE_SIZE == 4096,
        ;
        vpn
    }

    /// The offset of this address inside its page.
    pub fn page_offset(&self) -> (off: usize)
        ensures
            off == offset_of(self.0 as int),
            off < PAGE_SIZE,
    {
        self.0 % PAGE_SIZE
    }

    /// Whether this address is the first byte of a page.
    pub fn aligned(&self) -> (r: bool)
        ensures
            r == (offset_of(self.0 as int) == 0),
    {
        self.0 % PAGE_SIZE == 0
    }
}

} // verus!
