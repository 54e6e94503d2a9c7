//! The AArch64 port: memory layout, the GIC's spurious interrupt id,
//! the (still skeletal) translation table, the trap frame and the
//! decoding of traps from EL0.

use vstd::prelude::*;

use crate::hal::{FrameAllocator, PtePerm, TrapFrameAccess, UserTrapCause, VmError};

verus! {

pub const PGSIZE: u64 = 4096;
pub const KERNBASE: u64 = 0x4000_0000;
pub const PHYSTOP: u64 = 0x4800_0000;
/// User half of the 48-bit address space.
pub const MAXVA: u64 = 0x8000_0000_0000;
pub const TRAMPOLINE: u64 = 0x7fff_ffff_f000;
pub const TRAPFRAME: u64 = 0x7fff_ffff_e000;
pub const MAX_CPUS: usize = 8;
/// GIC interrupt id meaning "no pending interrupt".
pub const SPURIOUS_INTID: u32 = 1023;

/// The AArch64 port.
pub struct AArch64;

/// The GIC acknowledged no real interrupt.
pub fn is_spurious(intid: u32) -> (r: bool)
    ensures
        r == (intid == SPURIOUS_INTID),
{
    intid == SPURIOUS_INTID
}

/// Kernel stack VA of process slot `p`: two pages per slot (one guard)
/// below the trampoline.
pub fn kstack(p: u64) -> (r: u64)
    requires
        (p + 1) * 2 * PGSIZE <= TRAMPOLINE,
    ensures
        r == TRAMPOLINE - (p + 1) * 2 * PGSIZE,
{
    TRAMPOLINE - (p + 1) * 2 * PGSIZE
}

/// Root translation table (TTBR0_EL1 target). Descriptors are not
/// populated yet: mapping only checks alignment, and nothing
/// translates.
pub struct PageTable {
    root_pa: u64,
}

impl PageTable {
    pub closed spec fn root(&self) -> u64 {
        self.root_pa
    }

    /// Physical address of the root table.
    pub fn root_pa(&self) -> (r: u64)
        ensures
            r == self.root(),
    {
        self.root_pa
    }

    /// A table whose root frame comes from `alloc`.
    pub fn new<A: FrameAllocator>(alloc: &mut A) -> (r: Result<Self, VmError>)
        requires
            old(alloc).frames_wf(),
        ensures
            final(alloc).frames_wf(),
            old(alloc).frames().len() == 0 ==> r == Err::<Self, VmError>(VmError::Oom),
            old(alloc).frames().len() > 0 ==> (r matches Ok(pt) && pt.root() == old(alloc).frames().last()),
    {
        match alloc.alloc_zeroed() {
            None => Err(VmError::Oom),
            Some(pa) => Ok(PageTable { root_pa: pa }),
        }
    }

    /// Checks alignment of a mapping request.
    pub fn map(&mut self, va: u64, pa: u64, size: u64, perm: PtePerm) -> (r: Result<(), VmError>)
        ensures
            *final(self) == *old(self),
            r is Err <==> (va % PGSIZE != 0 || pa % PGSIZE != 0 || size % PGSIZE != 0 || size == 0),
            r is Err ==> r == Err::<(), VmError>(VmError::Misaligned),
    {
        if va % PGSIZE != 0 || pa % PGSIZE != 0 || size % PGSIZE != 0 || size == 0 {
            return Err(VmError::Misaligned);
        }
        Ok(())
    }

    /// Nothing is translated yet.
    pub fn translate(&self, va: u64) -> (r: Option<(u64, PtePerm)>)
        ensures
            r is None,
    {
        None
    }

    /// Nothing is mapped yet.
    pub fn unmap_page(&mut self, va: u64) -> (r: Option<u64>)
        ensures
            r is None,
            *final(self) == *old(self),
    {
        None
    }
}

impl crate::hal::PageTableOps for PageTable {
    open spec fn table_wf(&self) -> bool {
        true
    }

    open spec fn table_lookup(&self, va: u64) -> Option<(u64, u32)> {
        None
    }

    fn translate(&self, va: u64) -> (r: Option<(u64, PtePerm)>) {
        PageTable::translate(self, va)
    }

    fn unmap_page(&mut self, va: u64) -> (r: Option<u64>) {
        PageTable::unmap_page(self, va)
    }
}

/// TTBR0_EL1 value for the table: its root address.
pub fn ttbr0_value(pt: &PageTable) -> (r: u64)
    ensures
        r == pt.root(),
{
    pt.root_pa()
}

/// Saved user state, as the EL0 trampoline lays it out.
#[derive(Debug, Clone, Copy)]
pub struct TrapFrame {
    pub kernel_satp: u64,
    pub kernel_sp: u64,
    pub kernel_trap: u64,
    pub kernel_hartid: u64,
    pub elr_el1: u64,
    pub sp_el0: u64,
    pub spsr_el1: u64,
    pub x: [u64; 31],
    /// 0 for a synchronous trap, 1 for an IRQ.
    pub trap_kind: u64,
    /// ESR_EL1 captured at trap time.
    pub esr_el1: u64,
}

impl TrapFrameAccess for TrapFrame {
    open spec fn spec_epc(&self) -> u64 {
        self.elr_el1
    }

    open spec fn spec_sp(&self) -> u64 {
        self.sp_el0
    }

    open spec fn spec_syscall_nr(&self) -> u64 {
        self.x@[8]
    }

    open spec fn spec_kernel_satp(&self) -> u64 {
        self.kernel_satp
    }

    open spec fn spec_kernel_sp(&self) -> u64 {
        self.kernel_sp
    }

    open spec fn spec_kernel_trap(&self) -> u64 {
        self.kernel_trap
    }

    open spec fn spec_kernel_hartid(&self) -> u64 {
        self.kernel_hartid
    }

    open spec fn spec_arg(&self, n: int) -> u64 {
        if 0 <= n < 8 {
            self.x@[n]
        } else {
            0
        }
    }

    fn epc(&self) -> (r: u64) {
        self.elr_el1
    }

    fn set_epc(&mut self, v: u64) {
        self.elr_el1 = v;
    }

    fn sp(&self) -> (r: u64) {
        self.sp_el0
    }

    fn set_sp(&mut self, v: u64) {
        self.sp_el0 = v;
    }

    fn arg(&self, n: usize) -> (r: u64) {
        if n < 8 {
            self.x[n]
        } else {
            0
        }
    }

    fn set_arg(&mut self, n: usize, v: u64) {
        if n < 8 {
            self.x[n] = v;
        }
    }

    /// The syscall number travels in `x8`.
    fn syscall_nr(&self) -> (r: u64) {
        self.x[8]
    }

    fn set_kernel_satp(&mut self, v: u64)
        ensures
            *final(self) == (TrapFrame { kernel_satp: v, ..*old(self) }),
    {
        self.kernel_satp = v;
    }

    fn set_kernel_sp(&mut self, v: u64)
        ensures
            *final(self) == (TrapFrame { kernel_sp: v, ..*old(self) }),
    {
        self.kernel_sp = v;
    }

    fn set_kernel_trap(&mut self, v: u64)
        ensures
            *final(self) == (TrapFrame { kernel_trap: v, ..*old(self) }),
    {
        self.kernel_trap = v;
    }

    fn set_kernel_hartid(&mut self, v: u64)
        ensures
            *final(self) == (TrapFrame { kernel_hartid: v, ..*old(self) }),
    {
        self.kernel_hartid = v;
    }
}

/// Classifies a trap from EL0: an IRQ, or by the exception class of
/// the saved ESR (SVC, instruction abort, data abort with its
/// write-not-read bit); `far` is the faulting address.
pub fn decode_user_trap(tf: &TrapFrame, far: u64) -> (r: UserTrapCause)
    ensures
        tf.trap_kind == 1 ==> r == UserTrapCause::Devintr,
        tf.trap_kind != 1 ==> r == (if (tf.esr_el1 >> 26u64) & 0x3f == 0x15 {
            UserTrapCause::Syscall
        } else if (tf.esr_el1 >> 26u64) & 0x3f == 0x20 {
            UserTrapCause::PageFault { va: far, write: false }
        } else if (tf.esr_el1 >> 26u64) & 0x3f == 0x24 {
            UserTrapCause::PageFault { va: far, write: tf.esr_el1 & 0x40 != 0 }
        } else {
            UserTrapCause::Unknown { code: tf.esr_el1, va: far }
        }),
{
    if tf.trap_kind == 1 {
        return UserTrapCause::Devintr;
    }
    let esr = tf.esr_el1;
    let ec: u64 = (esr >> 26u64) & 0x3f;
    if ec == 0x15 {
        UserTrapCause::Syscall
    } else if ec == 0x20 {
        UserTrapCause::PageFault { va: far, write: false }
    } else if ec == 0x24 {
        UserTrapCause::PageFault { va: far, write: esr & 0x40 != 0 }
    } else {
        UserTrapCause::Unknown { code: esr, va: far }
    }
}

/// Offset of `userret` from the trampoline's vector table.
pub fn userret_offset(userret: u64, vector_table: u64) -> (r: u64)
    requires
        vector_table <= userret,
    ensures
        r == userret - vector_table,
{
    userret - vector_table
}

} // verus!
