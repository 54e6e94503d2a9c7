//! Architecture-neutral surface shared by both ports: trap causes,
//! page permissions, VM errors and the trap-frame access trait.

use vstd::prelude::*;

verus! {

/// Arch-neutral classification of a user-mode trap that just fired.
#[derive(Debug, Clone, Copy, PartialEq, Eq, Structural)]
pub enum UserTrapCause {
    /// System call (`ecall` from U-mode, `svc` on aarch64).
    Syscall,
    /// Timer interrupt.
    Timer,
    /// External device interrupt.
    Devintr,
    /// Load / store fault; `write` is true for store-side faults.
    PageFault { va: u64, write: bool },
    /// Anything else; the kernel kills the process.
    Unknown { code: u64, va: u64 },
}

/// Page permission bits (arch-neutral).
#[derive(Clone, Copy, Debug, PartialEq, Eq, Structural)]
pub struct PtePerm(pub u32);

pub const PERM_READ: u32 = 1;
pub const PERM_WRITE: u32 = 2;
pub const PERM_EXEC: u32 = 4;
pub const PERM_USER: u32 = 8;

impl PtePerm {
    pub const READ: u32 = 1;
    pub const WRITE: u32 = 2;
    pub const EXEC: u32 = 4;
    pub const USER: u32 = 8;

    /// Read-only.
    pub fn r() -> (p: Self)
        ensures
            p.0 == 1,
    {
        PtePerm(1)
    }

    /// Read-write.
    pub fn rw() -> (p: Self)
        ensures
            p.0 == 3,
    {
        PtePerm(3)
    }

    /// Read-execute.
    pub fn rx() -> (p: Self)
        ensures
            p.0 == 5,
    {
        PtePerm(5)
    }

    /// User read-write.
    pub fn urw() -> (p: Self)
        ensures
            p.0 == 11,
    {
        PtePerm(11)
    }

    /// True iff the user bit is set.
    pub fn is_user(&self) -> (r: bool)
        ensures
            r == (self.0 & 8 != 0),
    {
        self.0 & 8 != 0
    }
}

/// Why a page-table operation failed.
#[derive(Clone, Copy, Debug, PartialEq, Eq, Structural)]
pub enum VmError {
    Oom,
    Remap,
    Misaligned,
    OutOfRange,
}

/// Portable view of a saved trap frame: syscall arguments, the return
/// PC and stack pointer, and the kernel hand-over slots.
pub trait TrapFrameAccess: Sized {
    spec fn spec_epc(&self) -> u64;
    spec fn spec_sp(&self) -> u64;
    spec fn spec_arg(&self, n: int) -> u64;
    /// The register that carries the syscall number.
    spec fn spec_syscall_nr(&self) -> u64;
    /// The kernel values the trampoline reloads on the next trap.
    spec fn spec_kernel_satp(&self) -> u64;
    spec fn spec_kernel_sp(&self) -> u64;
    spec fn spec_kernel_trap(&self) -> u64;
    spec fn spec_kernel_hartid(&self) -> u64;

    fn epc(&self) -> (r: u64)
        ensures
            r == self.spec_epc(),
    ;

    fn set_epc(&mut self, v: u64)
        ensures
            final(self).spec_epc() == v,
            final(self).spec_sp() == old(self).spec_sp(),
            forall|n: int| 0 <= n < 8 ==> final(self).spec_arg(n) == old(self).spec_arg(n),
    ;

    fn sp(&self) -> (r: u64)
        ensures
            r == self.spec_sp(),
    ;

    fn set_sp(&mut self, v: u64)
        ensures
            final(self).spec_sp() == v,
            final(self).spec_epc() == old(self).spec_epc(),
            forall|n: int| 0 <= n < 8 ==> final(self).spec_arg(n) == old(self).spec_arg(n),
    ;

    /// Syscall argument `n` (0 for `n >= 8`).
    fn arg(&self, n: usize) -> (r: u64)
        ensures
            r == self.spec_arg(n as int),
            n >= 8 ==> r == 0,
    ;

    fn set_arg(&mut self, n: usize, v: u64)
        ensures
            n < 8 ==> final(self).spec_arg(n as int) == v,
            forall|m: int| 0 <= m < 8 && m != n ==> final(self).spec_arg(m) == old(self).spec_arg(m),
            n >= 8 ==> forall|m: int| 0 <= m < 8 ==> final(self).spec_arg(m) == old(self).spec_arg(m),
            final(self).spec_epc() == old(self).spec_epc(),
            final(self).spec_sp() == old(self).spec_sp(),
    ;

    /// Number of the requested syscall.
    fn syscall_nr(&self) -> (r: u64)
        ensures
            r == self.spec_syscall_nr(),
    ;

    /// Records the kernel satp for the next trap; the user registers
    /// and the other kernel values are kept.
    fn set_kernel_satp(&mut self, v: u64)
        ensures
            final(self).spec_kernel_satp() == v,
            final(self).spec_kernel_sp() == old(self).spec_kernel_sp(),
            final(self).spec_kernel_trap() == old(self).spec_kernel_trap(),
            final(self).spec_kernel_hartid() == old(self).spec_kernel_hartid(),
            final(self).spec_epc() == old(self).spec_epc(),
            final(self).spec_sp() == old(self).spec_sp(),
            final(self).spec_syscall_nr() == old(self).spec_syscall_nr(),
            forall|n: int| 0 <= n < 8 ==> final(self).spec_arg(n) == old(self).spec_arg(n),
    ;

    /// Records the kernel sp for the next trap; the user registers
    /// and the other kernel values are kept.
    fn set_kernel_sp(&mut self, v: u64)
        ensures
            final(self).spec_kernel_sp() == v,
            final(self).spec_kernel_satp() == old(self).spec_kernel_satp(),
            final(self).spec_kernel_trap() == old(self).spec_kernel_trap(),
            final(self).spec_kernel_hartid() == old(self).spec_kernel_hartid(),
            final(self).spec_epc() == old(self).spec_epc(),
            final(self).spec_sp() == old(self).spec_sp(),
            final(self).spec_syscall_nr() == old(self).spec_syscall_nr(),
            forall|n: int| 0 <= n < 8 ==> final(self).spec_arg(n) == old(self).spec_arg(n),
    ;

    /// Records the kernel trap for the next trap; the user registers
    /// and the other kernel values are kept.
    fn set_kernel_trap(&mut self, v: u64)
        ensures
            final(self).spec_kernel_trap() == v,
            final(self).spec_kernel_satp() == old(self).spec_kernel_satp(),
            final(self).spec_kernel_sp() == old(self).spec_kernel_sp(),
            final(self).spec_kernel_hartid() == old(self).spec_kernel_hartid(),
            final(self).spec_epc() == old(self).spec_epc(),
            final(self).spec_sp() == old(self).spec_sp(),
            final(self).spec_syscall_nr() == old(self).spec_syscall_nr(),
            forall|n: int| 0 <= n < 8 ==> final(self).spec_arg(n) == old(self).spec_arg(n),
    ;

    /// Records the kernel hartid for the next trap; the user registers
    /// and the other kernel values are kept.
    fn set_kernel_hartid(&mut self, v: u64)
        ensures
            final(self).spec_kernel_hartid() == v,
            final(self).spec_kernel_satp() == old(self).spec_kernel_satp(),
            final(self).spec_kernel_sp() == old(self).spec_kernel_sp(),
            final(self).spec_kernel_trap() == old(self).spec_kernel_trap(),
            final(self).spec_epc() == old(self).spec_epc(),
            final(self).spec_sp() == old(self).spec_sp(),
            final(self).spec_syscall_nr() == old(self).spec_syscall_nr(),
            forall|n: int| 0 <= n < 8 ==> final(self).spec_arg(n) == old(self).spec_arg(n),
    ;
}

/// A page table as the kernel's address-space code uses it.
pub trait PageTableOps: Sized {
    /// The table's invariant.
    spec fn table_wf(&self) -> bool;

    /// What an access to `va` reaches: the physical address and the
    /// permission bits, or nothing.
    spec fn table_lookup(&self, va: u64) -> Option<(u64, u32)>;

    /// Looks `va` up.
    fn translate(&self, va: u64) -> (r: Option<(u64, PtePerm)>)
        requires
            self.table_wf(),
        ensures
            match r {
                None => self.table_lookup(va) is None,
                Some((pa, p)) => self.table_lookup(va) == Some((pa, p.0)),
            },
    ;

    /// Unmaps the page holding `va`; returns the frame it mapped.
    fn unmap_page(&mut self, va: u64) -> (r: Option<u64>)
        requires
            old(self).table_wf(),
        ensures
            final(self).table_wf(),
            match old(self).table_lookup(va) {
                None => r is None,
                Some((p, _)) => r == Some((p - va % 4096) as u64) && final(self).table_lookup(va) is None,
            },
    ;
}

/// Source of page-aligned physical frames for page-table pages.
/// `frames()` is the multiset-free sequence of frames it can still
/// hand out; the next one handed out is the last.
pub trait FrameAllocator: Sized {
    spec fn frames(&self) -> Seq<u64>;

    /// Well-formed: frames distinct and page-aligned.
    spec fn frames_wf(&self) -> bool;

    /// A free frame, or `None` when none is left.
    fn alloc_zeroed(&mut self) -> (r: Option<u64>)
        requires
            old(self).frames_wf(),
        ensures
            final(self).frames_wf(),
            old(self).frames().len() == 0 ==> r is None && final(self).frames() == old(self).frames(),
            old(self).frames().len() > 0 ==> r == Some(old(self).frames().last()) && final(self).frames()
                == old(self).frames().drop_last(),
    ;

    /// Give back frame `pa`.
    fn free(&mut self, pa: u64)
        requires
            old(self).frames_wf(),
            pa % 4096 == 0,
            !old(self).frames().contains(pa),
        ensures
            final(self).frames_wf(),
            final(self).frames() == old(self).frames().push(pa),
    ;
}

} // verus!
