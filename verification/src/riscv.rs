//! RISC-V (Sv39) port: physical memory layout, PTE encoding, satp
//! encoding, trap-cause decoding and the trap frame.

use vstd::prelude::*;

use crate::hal::{PtePerm, TrapFrameAccess, UserTrapCause};

verus! {

pub const PGSIZE: u64 = 4096;
pub const PGSHIFT: usize = 12;
pub const KERNBASE: u64 = 0x8000_0000;
pub const PHYSTOP: u64 = 0x8800_0000;
/// One past the highest virtual address (Sv39 uses 38 bits here).
pub const MAXVA: u64 = 0x40_0000_0000;
pub const UART0: u64 = 0x1000_0000;
pub const UART0_SIZE: u64 = 4096;
pub const UART0_IRQ: usize = 10;
pub const VIRTIO0: u64 = 0x1000_1000;
pub const VIRTIO0_SIZE: u64 = 4096;
pub const VIRTIO0_IRQ: usize = 1;
pub const PLIC: u64 = 0x0c00_0000;
pub const PLIC_SIZE: u64 = 0x40_0000;
pub const CLINT: u64 = 0x0200_0000;
pub const TRAMPOLINE: u64 = 0x3f_ffff_f000;
pub const TRAPFRAME: u64 = 0x3f_ffff_e000;
pub const TIMER_INTERVAL: u64 = 1_000_000;
pub const MAX_CPUS: usize = 8;

pub const PTE_V: u64 = 1;
pub const PTE_R: u64 = 2;
pub const PTE_W: u64 = 4;
pub const PTE_X: u64 = 8;
pub const PTE_U: u64 = 16;

/// Sv39 `satp` mode field (mode 8 in bits 63:60).
pub const SATP_SV39: u64 = 0x8000_0000_0000_0000;

/// Kernel stack VA of process slot `p`: two pages per slot (one guard)
/// below the trampoline.
pub fn kstack(p: u64) -> (r: u64)
    requires
        (p + 1) * 2 * PGSIZE <= TRAMPOLINE,
    ensures
        r == TRAMPOLINE - (p + 1) * 2 * PGSIZE,
{
    TRAMPOLINE - (p + 1) * 2 * PGSIZE
}

/// Physical address encoded in the PPN field (bits 53:10) of a PTE.
pub open spec fn pte_pa_spec(v: u64) -> u64 {
    ((v >> 10u64) & 0xfff_ffff_ffffu64) << 12u64
}

/// Permission bits of a PTE, in `PtePerm` layout.
pub open spec fn pte_perm_spec(v: u64) -> u32 {
    (if v & PTE_R != 0 { 1u32 } else { 0u32 }) | (if v & PTE_W != 0 { 2u32 } else { 0u32 }) | (if v
        & PTE_X != 0 { 4u32 } else { 0u32 }) | (if v & PTE_U != 0 { 8u32 } else { 0u32 })
}

/// Bits of a valid leaf entry mapping `pa` with permission bits `p`.
pub open spec fn leaf_bits(pa: u64, p: u32) -> u64 {
    ((pa >> 12u64) << 10u64) | 1u64 | (if p & 1 != 0 { 2u64 } else { 0u64 }) | (if p & 2 != 0 {
        4u64
    } else { 0u64 }) | (if p & 4 != 0 { 8u64 } else { 0u64 }) | (if p & 8 != 0 { 16u64 } else { 0u64 })
}

/// Bits of a valid non-leaf entry pointing at the table at `pa`.
pub open spec fn branch_bits(pa: u64) -> u64 {
    ((pa >> 12u64) << 10u64) | 1u64
}

/// A page-table entry (64 bits).
#[derive(Copy, Clone, Debug, PartialEq, Eq, Structural)]
pub struct Pte(pub u64);

impl Pte {
    /// The empty (invalid) entry.
    pub fn empty() -> (r: Self)
        ensures
            r.0 == 0,
    {
        Pte(0)
    }

    /// Valid bit set.
    pub fn is_valid(self) -> (r: bool)
        ensures
            r == (self.0 & PTE_V != 0),
    {
        (self.0 & PTE_V) != 0
    }

    /// Valid with at least one of R/W/X set (a leaf mapping).
    pub fn is_leaf(self) -> (r: bool)
        ensures
            r == (self.0 & PTE_V != 0 && self.0 & 14 != 0),
    {
        assert(PTE_R | PTE_W | PTE_X == 14u64) by (bit_vector);
        self.is_valid() && (self.0 & (PTE_R | PTE_W | PTE_X)) != 0
    }

    /// Physical address the entry points at.
    pub fn pa(self) -> (r: u64)
        ensures
            r == pte_pa_spec(self.0),
            r % 4096 == 0,
            r < 0x100_0000_0000_0000,
    {
        let v = self.0;
        assert((((v >> 10u64) & 0xfff_ffff_ffffu64) << 12u64) % 4096 == 0) by (bit_vector);
        assert((((v >> 10u64) & 0xfff_ffff_ffffu64) << 12u64) < 0x100_0000_0000_0000u64) by (bit_vector);
        ((self.0 >> 10) & 0xfff_ffff_ffffu64) << 12
    }

    /// R/W/X/U bits as a `PtePerm`.
    pub fn flags_perm(self) -> (r: PtePerm)
        ensures
            r.0 == pte_perm_spec(self.0),
    {
        let v = self.0;
        PtePerm(
            (if v & PTE_R != 0 { 1u32 } else { 0u32 }) | (if v & PTE_W != 0 { 2u32 } else { 0u32 }) | (if v
                & PTE_X != 0 { 4u32 } else { 0u32 }) | (if v & PTE_U != 0 { 8u32 } else { 0u32 }),
        )
    }

    /// Valid leaf entry mapping `pa` with the R/W/X/U bits of `perm`.
    pub fn make_leaf(pa: u64, perm: PtePerm) -> (r: Self)
        ensures
            r.0 == leaf_bits(pa, perm.0),
    {
        let p = perm.0;
        Pte(
            ((pa >> 12) << 10) | 1u64 | (if p & 1 != 0 { 2u64 } else { 0u64 }) | (if p & 2 != 0 {
                4u64
            } else { 0u64 }) | (if p & 4 != 0 { 8u64 } else { 0u64 }) | (if p & 8 != 0 { 16u64 } else {
                0u64
            }),
        )
    }

    /// Valid non-leaf entry pointing at the next-level table `pa`.
    pub fn make_branch(pa: u64) -> (r: Self)
        ensures
            r.0 == branch_bits(pa),
    {
        Pte(((pa >> 12) << 10) | PTE_V)
    }
}

/// A leaf built from a page-aligned `pa` below 2^56 gives back that
/// `pa`, the permission's R/W/X/U bits, and is a valid leaf exactly
/// when the permission has one of R/W/X.
pub proof fn lemma_leaf_roundtrip(pa: u64, perm: PtePerm)
    requires
        pa % 4096 == 0,
        pa < 0x100_0000_0000_0000,
    ensures
        pte_pa_spec(leaf_bits(pa, perm.0)) == pa,
        pte_perm_spec(leaf_bits(pa, perm.0)) == perm.0 & 15,
        leaf_bits(pa, perm.0) & PTE_V != 0,
        (leaf_bits(pa, perm.0) & 14 != 0) == (perm.0 & 7 != 0),
{
    let p = perm.0;
    assert(pa % 4096 == 0 && pa < 0x100_0000_0000_0000u64 ==> ((((((pa >> 12u64) << 10u64) | 1u64 | (if p & 1 != 0 { 2u64 } else { 0u64 }) | (if p & 2 != 0 { 4u64 } else { 0u64 }) | (if p & 4 != 0 { 8u64 } else { 0u64 }) | (if p & 8 != 0 { 16u64 } else { 0u64 })) >> 10u64) & 0xfff_ffff_ffffu64) << 12u64) == pa) by (bit_vector);
    assert(((((pa >> 12u64) << 10u64) | 1u64 | (if p & 1 != 0 { 2u64 } else { 0u64 }) | (if p & 2 != 0 { 4u64 } else { 0u64 }) | (if p & 4 != 0 { 8u64 } else { 0u64 }) | (if p & 8 != 0 { 16u64 } else { 0u64 })) & 2u64 != 0) == (p & 1 != 0)) by (bit_vector);
    assert(((((pa >> 12u64) << 10u64) | 1u64 | (if p & 1 != 0 { 2u64 } else { 0u64 }) | (if p & 2 != 0 { 4u64 } else { 0u64 }) | (if p & 4 != 0 { 8u64 } else { 0u64 }) | (if p & 8 != 0 { 16u64 } else { 0u64 })) & 4u64 != 0) == (p & 2 != 0)) by (bit_vector);
    assert(((((pa >> 12u64) << 10u64) | 1u64 | (if p & 1 != 0 { 2u64 } else { 0u64 }) | (if p & 2 != 0 { 4u64 } else { 0u64 }) | (if p & 4 != 0 { 8u64 } else { 0u64 }) | (if p & 8 != 0 { 16u64 } else { 0u64 })) & 8u64 != 0) == (p & 4 != 0)) by (bit_vector);
    assert(((((pa >> 12u64) << 10u64) | 1u64 | (if p & 1 != 0 { 2u64 } else { 0u64 }) | (if p & 2 != 0 { 4u64 } else { 0u64 }) | (if p & 4 != 0 { 8u64 } else { 0u64 }) | (if p & 8 != 0 { 16u64 } else { 0u64 })) & 16u64 != 0) == (p & 8 != 0)) by (bit_vector);
    assert(((((pa >> 12u64) << 10u64) | 1u64 | (if p & 1 != 0 { 2u64 } else { 0u64 }) | (if p & 2 != 0 { 4u64 } else { 0u64 }) | (if p & 4 != 0 { 8u64 } else { 0u64 }) | (if p & 8 != 0 { 16u64 } else { 0u64 })) & 1u64 != 0)) by (bit_vector);
    assert(((((pa >> 12u64) << 10u64) | 1u64 | (if p & 1 != 0 { 2u64 } else { 0u64 }) | (if p & 2 != 0 { 4u64 } else { 0u64 }) | (if p & 4 != 0 { 8u64 } else { 0u64 }) | (if p & 8 != 0 { 16u64 } else { 0u64 })) & 14u64 != 0) == (p & 7 != 0)) by (bit_vector);
    assert(((if p & 1 != 0 { 1u32 } else { 0u32 }) | (if p & 2 != 0 { 2u32 } else { 0u32 }) | (if p & 4 != 0 { 4u32 } else { 0u32 }) | (if p & 8 != 0 { 8u32 } else { 0u32 })) == p & 15) by (bit_vector);
}


/// The RISC-V port.
pub struct Riscv64;

/// `sstatus.SIE`: supervisor interrupts enabled.
pub const SSTATUS_SIE: u64 = 2;

/// Interrupts are on, given the `sstatus` value.
pub fn intr_get(sstatus: u64) -> (r: bool)
    ensures
        r == (sstatus & SSTATUS_SIE != 0),
{
    sstatus & SSTATUS_SIE != 0
}

/// Offset of a trampoline entry point at `entry` from the trampoline
/// page at `trampoline`.
pub fn trampoline_offset(entry: u64, trampoline: u64) -> (r: u64)
    requires
        trampoline <= entry,
    ensures
        r == entry - trampoline,
{
    entry - trampoline
}

/// Offset of `uservec` in the trampoline page.
pub fn uservec_offset(uservec: u64, trampoline: u64) -> (r: u64)
    requires
        trampoline <= uservec,
    ensures
        r == uservec - trampoline,
{
    trampoline_offset(uservec, trampoline)
}

/// Offset of `userret` in the trampoline page.
pub fn userret_offset(userret: u64, trampoline: u64) -> (r: u64)
    requires
        trampoline <= userret,
    ensures
        r == userret - trampoline,
{
    trampoline_offset(userret, trampoline)
}

/// Kernel-side trap causes.
#[derive(Debug, Clone, Copy, PartialEq, Eq, Structural)]
pub enum TrapCause {
    Timer,
    External,
    Software,
    Unknown(u64),
    Exception(u64),
}

pub const SCAUSE_INTERRUPT: u64 = 0x8000_0000_0000_0000;

/// Classifies a kernel-mode trap from `scause`.
pub fn kernel_trap_cause(scause: u64) -> (r: TrapCause)
    ensures
        scause >= SCAUSE_INTERRUPT ==> r == (if scause - SCAUSE_INTERRUPT == 5 {
            TrapCause::Timer
        } else if scause - SCAUSE_INTERRUPT == 9 {
            TrapCause::External
        } else if scause - SCAUSE_INTERRUPT == 1 {
            TrapCause::Software
        } else {
            TrapCause::Unknown((scause - SCAUSE_INTERRUPT) as u64)
        }),
        scause < SCAUSE_INTERRUPT ==> r == TrapCause::Exception(scause),
{
    if scause >= SCAUSE_INTERRUPT {
        let code: u64 = scause - SCAUSE_INTERRUPT;
        if code == 5 {
            TrapCause::Timer
        } else if code == 9 {
            TrapCause::External
        } else if code == 1 {
            TrapCause::Software
        } else {
            TrapCause::Unknown(code)
        }
    } else {
        TrapCause::Exception(scause)
    }
}

/// The kernel handles a trap on its own only for the timer interrupt.
pub fn decode_and_handle(scause: u64) -> (r: bool)
    ensures
        r == (kernel_trap_cause_spec(scause) == TrapCause::Timer),
{
    kernel_trap_cause(scause) == TrapCause::Timer
}

pub open spec fn kernel_trap_cause_spec(scause: u64) -> TrapCause {
    if scause >= SCAUSE_INTERRUPT {
        if scause - SCAUSE_INTERRUPT == 5 {
            TrapCause::Timer
        } else if scause - SCAUSE_INTERRUPT == 9 {
            TrapCause::External
        } else if scause - SCAUSE_INTERRUPT == 1 {
            TrapCause::Software
        } else {
            TrapCause::Unknown((scause - SCAUSE_INTERRUPT) as u64)
        }
    } else {
        TrapCause::Exception(scause)
    }
}

/// Saved user registers, laid out as the trampoline expects.
#[derive(Debug, Clone, Copy)]
pub struct TrapFrame {
    pub kernel_satp: u64,
    pub kernel_sp: u64,
    pub kernel_trap: u64,
    pub epc: u64,
    pub kernel_hartid: u64,
    pub ra: u64,
    pub sp: u64,
    pub gp: u64,
    pub tp: u64,
    pub t0: u64,
    pub t1: u64,
    pub t2: u64,
    pub s0: u64,
    pub s1: u64,
    pub a0: u64,
    pub a1: u64,
    pub a2: u64,
    pub a3: u64,
    pub a4: u64,
    pub a5: u64,
    pub a6: u64,
    pub a7: u64,
    pub s2: u64,
    pub s3: u64,
    pub s4: u64,
    pub s5: u64,
    pub s6: u64,
    pub s7: u64,
    pub s8: u64,
    pub s9: u64,
    pub s10: u64,
    pub s11: u64,
    pub t3: u64,
    pub t4: u64,
    pub t5: u64,
    pub t6: u64,
}

impl TrapFrame {
    pub open spec fn a(&self, n: int) -> u64 {
        if n == 0 {
            self.a0
        } else if n == 1 {
            self.a1
        } else if n == 2 {
            self.a2
        } else if n == 3 {
            self.a3
        } else if n == 4 {
            self.a4
        } else if n == 5 {
            self.a5
        } else if n == 6 {
            self.a6
        } else if n == 7 {
            self.a7
        } else {
            0
        }
    }
}

impl TrapFrameAccess for TrapFrame {
    open spec fn spec_epc(&self) -> u64 {
        self.epc
    }

    open spec fn spec_sp(&self) -> u64 {
        self.sp
    }

    open spec fn spec_syscall_nr(&self) -> u64 {
        self.a7
    }

    open spec fn spec_kernel_satp(&self) -> u64 {
        self.kernel_satp
    }

    open spec fn spec_kernel_sp(&self) -> u64 {
        self.kernel_sp
    }

    open spec fn spec_kernel_trap(&self) -> u64 {
        self.kernel_trap
    }

    open spec fn spec_kernel_hartid(&self) -> u64 {
        self.kernel_hartid
    }

    open spec fn spec_arg(&self, n: int) -> u64 {
        self.a(n)
    }

    fn epc(&self) -> (r: u64) {
        self.epc
    }

    fn set_epc(&mut self, v: u64) {
        self.epc = v;
    }

    fn sp(&self) -> (r: u64) {
        self.sp
    }

    fn set_sp(&mut self, v: u64) {
        self.sp = v;
    }

    fn arg(&self, n: usize) -> (r: u64) {
        if n == 0 {
            self.a0
        } else if n == 1 {
            self.a1
        } else if n == 2 {
            self.a2
        } else if n == 3 {
            self.a3
        } else if n == 4 {
            self.a4
        } else if n == 5 {
            self.a5
        } else if n == 6 {
            self.a6
        } else if n == 7 {
            self.a7
        } else {
            0
        }
    }

    fn set_arg(&mut self, n: usize, v: u64) {
        if n == 0 {
            self.a0 = v;
        } else if n == 1 {
            self.a1 = v;
        } else if n == 2 {
            self.a2 = v;
        } else if n == 3 {
            self.a3 = v;
        } else if n == 4 {
            self.a4 = v;
        } else if n == 5 {
            self.a5 = v;
        } else if n == 6 {
            self.a6 = v;
        } else if n == 7 {
            self.a7 = v;
        }
    }

    /// The syscall number travels in `a7`.
    fn syscall_nr(&self) -> (r: u64) {
        self.a7
    }

    fn set_kernel_satp(&mut self, v: u64)
        ensures
            *final(self) == (TrapFrame { kernel_satp: v, ..*old(self) }),
    {
        self.kernel_satp = v;
    }

    fn set_kernel_sp(&mut self, v: u64)
        ensures
            *final(self) == (TrapFrame { kernel_sp: v, ..*old(self) }),
    {
        self.kernel_sp = v;
    }

    fn set_kernel_trap(&mut self, v: u64)
        ensures
            *final(self) == (TrapFrame { kernel_trap: v, ..*old(self) }),
    {
        self.kernel_trap = v;
    }

    fn set_kernel_hartid(&mut self, v: u64)
        ensures
            *final(self) == (TrapFrame { kernel_hartid: v, ..*old(self) }),
    {
        self.kernel_hartid = v;
    }
}

pub const SCAUSE_ECALL_FROM_U: u64 = 8;
pub const SCAUSE_LOAD_PAGE_FAULT: u64 = 13;
pub const SCAUSE_STORE_PAGE_FAULT: u64 = 15;

/// Classifies a trap from user mode given `scause`, `sepc` and `stval`,
/// saving the user PC in `tf` (past the `ecall` for a system call).
pub fn decode_user_trap(tf: &mut TrapFrame, scause: u64, sepc: u64, stval: u64) -> (r: UserTrapCause)
    requires
        sepc <= u64::MAX - 4,
    ensures
        final(tf).epc == (if scause == SCAUSE_ECALL_FROM_U {
            sepc + 4
        } else {
            sepc as int
        }),
        final(tf).sp == old(tf).sp,
        forall|n: int| 0 <= n < 8 ==> #[trigger] final(tf).a(n) == old(tf).a(n),
        r == (if scause == SCAUSE_ECALL_FROM_U {
            UserTrapCause::Syscall
        } else if scause >= SCAUSE_INTERRUPT {
            if scause - SCAUSE_INTERRUPT == 5 {
                UserTrapCause::Timer
            } else if scause - SCAUSE_INTERRUPT == 9 {
                UserTrapCause::Devintr
            } else {
                UserTrapCause::Unknown { code: scause, va: 0 }
            }
        } else if scause == SCAUSE_LOAD_PAGE_FAULT {
            UserTrapCause::PageFault { va: stval, write: false }
        } else if scause == SCAUSE_STORE_PAGE_FAULT {
            UserTrapCause::PageFault { va: stval, write: true }
        } else {
            UserTrapCause::Unknown { code: scause, va: stval }
        }),
{
    tf.epc = sepc;
    if scause == SCAUSE_ECALL_FROM_U {
        tf.epc = sepc + 4;
        return UserTrapCause::Syscall;
    }
    if scause >= SCAUSE_INTERRUPT {
        let code: u64 = scause - SCAUSE_INTERRUPT;
        if code == 5 {
            return UserTrapCause::Timer;
        } else if code == 9 {
            return UserTrapCause::Devintr;
        } else {
            return UserTrapCause::Unknown { code: scause, va: 0 };
        }
    }
    if scause == SCAUSE_LOAD_PAGE_FAULT {
        UserTrapCause::PageFault { va: stval, write: false }
    } else if scause == SCAUSE_STORE_PAGE_FAULT {
        UserTrapCause::PageFault { va: stval, write: true }
    } else {
        UserTrapCause::Unknown { code: scause, va: stval }
    }
}

pub const SSTATUS_SPP: u64 = 0x100;
pub const SSTATUS_SPIE: u64 = 0x20;
pub const SSTATUS_FS_MASK: u64 = 0x6000;
pub const SSTATUS_FS_INITIAL: u64 = 0x2000;

/// `sstatus` for the return to user mode: previous mode user, interrupts
/// re-enabled by `sret`, floating point in its initial state; other bits
/// kept.
pub fn user_sstatus(sstatus: u64) -> (r: u64)
    ensures
        r == ((((sstatus & !SSTATUS_SPP) | SSTATUS_SPIE) & !SSTATUS_FS_MASK) | SSTATUS_FS_INITIAL),
{
    let mut s: u64 = sstatus & !SSTATUS_SPP;
    s = s | SSTATUS_SPIE;
    (s & !SSTATUS_FS_MASK) | SSTATUS_FS_INITIAL
}

/// Fills in the kernel half of the trap frame before the return to user
/// mode, so that the next trap finds the kernel page table, this hart's
/// kernel stack and the user-trap handler.
pub fn prepare_return(tf: &mut TrapFrame, kernel_satp: u64, kernel_sp: u64, kernel_trap: u64, hartid: u64)
    ensures
        *final(tf) == (TrapFrame { kernel_satp, kernel_sp, kernel_trap, kernel_hartid: hartid, ..*old(tf) }),
{
    tf.kernel_satp = kernel_satp;
    tf.kernel_sp = kernel_sp;
    tf.kernel_trap = kernel_trap;
    tf.kernel_hartid = hartid;
}

} // verus!
