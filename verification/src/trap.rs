//! The register frame that a trap saves for a task.

use vstd::prelude::*;

verus! {

/// The user-mode registers of a task as saved on entry to the kernel,
/// together with what the trap entry needs to get back into the kernel.
#[derive(Clone, Copy, Debug)]
pub struct TrapContext {
    /// General registers.
    pub x: [usize; 32],
    /// Supervisor status register.
    pub sstatus: usize,
    /// Address at which the task resumes.
    pub sepc: usize,
    /// Handle of the kernel's address space.
    pub kernel_satp: usize,
    /// Top of the task's kernel stack.
    pub kernel_sp: usize,
    /// Address of the kernel's trap handler.
    pub trap_handler: usize,
}

impl TrapContext {
    /// The frame of a task that starts at `entry` with the user stack `sp`.
    pub fn app_init_context(
        entry: usize,
        sp: usize,
        kernel_satp: usize,
        kernel_sp: usize,
        trap_handler: usize,
    ) -> (cx: TrapContext)
        ensures
            cx.sepc == entry,
            cx.sstatus == 0,
            cx.kernel_satp == kernel_satp,
            cx.kernel_sp == kernel_sp,
            cx.trap_handler == trap_handler,
            cx.x[2] == sp,
            forall|i: int| 0 <= i < 32 && i != 2 ==> cx.x[i] == 0,
    {
        let mut x: [usize; 32] = [0; 32];
        x[2] = sp;
        TrapContext { x, sstatus: 0, sepc: entry, kernel_satp, kernel_sp, trap_handler }
    }

    /// Sets the stack pointer register.
    pub fn set_sp(&mut self, sp: usize)
        ensures
            final(self).x@ == old(self).x@.update(2, sp),
            final(self).sstatus == old(self).sstatus,
            final(self).sepc == old(self).sepc,
            final(self).kernel_satp == old(self).kernel_satp,
            final(self).kernel_sp == old(self).kernel_sp,
            final(self).trap_handler == old(self).trap_handler,
    {
        self.x[2] = sp;
    }
}

} // verus!
