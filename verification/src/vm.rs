//! The kernel page table: device registers, kernel text and data, and
//! all of physical memory identity-mapped, plus the trampoline page at
//! the top of the address space.

use vstd::prelude::*;

use crate::hal::{FrameAllocator, PtePerm, VmError};
use crate::riscv::{KERNBASE, PGSIZE, PHYSTOP, PLIC, PLIC_SIZE, TRAMPOLINE, UART0, UART0_SIZE, VIRTIO0, VIRTIO0_SIZE};
use crate::sv39::{alloc_ready, frames_fit, PageTable};

verus! {

/// What the kernel page table maps `b` to, given the end of kernel text
/// `etext` and the trampoline's frame.
pub open spec fn kvm_lookup(b: u64, etext: u64, trampoline_pa: u64) -> Option<(u64, u32)> {
    if TRAMPOLINE <= b < TRAMPOLINE + 4096 {
        Some(((trampoline_pa + (b - TRAMPOLINE)) as u64, 5u32))
    } else if etext <= b < PHYSTOP {
        Some((b, 3u32))
    } else if KERNBASE <= b < etext {
        Some((b, 5u32))
    } else if PLIC <= b < PLIC + PLIC_SIZE {
        Some((b, 3u32))
    } else if VIRTIO0 <= b < VIRTIO0 + VIRTIO0_SIZE {
        Some((b, 3u32))
    } else if UART0 <= b < UART0 + UART0_SIZE {
        Some((b, 3u32))
    } else {
        None
    }
}

/// Frames that always suffice for the kernel page table: the root and
/// two tables per mapped page at most.
pub const KVM_FRAMES: u64 = 67591;

proof fn lemma_page_in(base: u64, size: u64, m: int)
    requires
        size % 4096 == 0,
        0 <= m < size / 4096,
    ensures
        base <= base + m * 4096,
        base + m * 4096 + 4096 <= base + size,
{
    assert(m * 4096 + 4096 <= size) by (nonlinear_arith)
        requires
            size % 4096 == 0,
            0 <= m < size / 4096,
    ;
}

/// Builds the kernel page table. Kernel text `[KERNBASE, etext)` is
/// read-execute, the rest of physical memory up to `PHYSTOP` and the
/// device registers read-write; the trampoline's frame is mapped again
/// at `TRAMPOLINE`. Fails when the allocator runs out.
pub fn kvm_make<A: FrameAllocator>(alloc: &mut A, etext: u64, trampoline_pa: u64) -> (r: Result<PageTable, VmError>)
    requires
        old(alloc).frames_wf(),
        frames_fit(old(alloc).frames()),
        old(alloc).frames().no_duplicates(),
        etext % 4096 == 0,
        KERNBASE < etext < PHYSTOP,
        trampoline_pa % 4096 == 0,
        trampoline_pa + 4096 <= 0x100_0000_0000_0000,
    ensures
        final(alloc).frames_wf(),
        frames_fit(final(alloc).frames()),
        final(alloc).frames().no_duplicates(),
        r matches Ok(pt) ==> {
            &&& pt.wf()
            &&& alloc_ready(&pt, final(alloc))
            &&& forall|b: u64| #[trigger] pt.lookup(b) == kvm_lookup(b, etext, trampoline_pa)
        },
        old(alloc).frames().len() >= KVM_FRAMES ==> r is Ok,
{
    let ghost owed: bool = alloc.frames().len() >= KVM_FRAMES;
    let mut pt = match PageTable::new(alloc) {
        Err(e) => return Err(e),
        Ok(p) => p,
    };
    proof {
        assert(3u32 & 15 == 3u32) by (bit_vector);
        assert(5u32 & 15 == 5u32) by (bit_vector);
    }
    let ghost p0 = pt;
    proof {
        if owed {
            assert forall|m: int| 0 <= m < UART0_SIZE / 4096 implies #[trigger] pt.lookup((UART0 + m * 4096) as u64) is None by {
                lemma_page_in(UART0, UART0_SIZE, m);
            }
        }
    }
    let r = pt.map(UART0, UART0, UART0_SIZE, PtePerm::rw(), alloc);
    if r.is_err() {
        return Err(r.unwrap_err());
    }
    let ghost p1 = pt;
    proof {
        if owed {
            assert forall|m: int| 0 <= m < VIRTIO0_SIZE / 4096 implies #[trigger] pt.lookup((VIRTIO0 + m * 4096) as u64) is None by {
                lemma_page_in(VIRTIO0, VIRTIO0_SIZE, m);
            }
        }
    }
    let r = pt.map(VIRTIO0, VIRTIO0, VIRTIO0_SIZE, PtePerm::rw(), alloc);
    if r.is_err() {
        return Err(r.unwrap_err());
    }
    let ghost p2 = pt;
    proof {
        if owed {
            assert forall|m: int| 0 <= m < PLIC_SIZE / 4096 implies #[trigger] pt.lookup((PLIC + m * 4096) as u64) is None by {
                lemma_page_in(PLIC, PLIC_SIZE, m);
            }
        }
    }
    let r = pt.map(PLIC, PLIC, PLIC_SIZE, PtePerm::rw(), alloc);
    if r.is_err() {
        return Err(r.unwrap_err());
    }
    let ghost p3 = pt;
    proof {
        if owed {
            assert forall|m: int| 0 <= m < (etext - KERNBASE) as u64 / 4096 implies #[trigger] pt.lookup((KERNBASE + m * 4096) as u64) is None by {
                lemma_page_in(KERNBASE, (etext - KERNBASE) as u64, m);
            }
        }
    }
    let r = pt.map(KERNBASE, KERNBASE, etext - KERNBASE, PtePerm::rx(), alloc);
    if r.is_err() {
        return Err(r.unwrap_err());
    }
    let ghost p4 = pt;
    proof {
        if owed {
            assert forall|m: int| 0 <= m < (PHYSTOP - etext) as u64 / 4096 implies #[trigger] pt.lookup((etext + m * 4096) as u64) is None by {
                lemma_page_in(etext, (PHYSTOP - etext) as u64, m);
            }
        }
    }
    let r = pt.map(etext, etext, PHYSTOP - etext, PtePerm::rw(), alloc);
    if r.is_err() {
        return Err(r.unwrap_err());
    }
    let ghost p5 = pt;
    proof {
        if owed {
            assert forall|m: int| 0 <= m < PGSIZE / 4096 implies #[trigger] pt.lookup((TRAMPOLINE + m * 4096) as u64) is None by {
                lemma_page_in(TRAMPOLINE, PGSIZE, m);
            }
        }
    }
    let r = pt.map(TRAMPOLINE, trampoline_pa, PGSIZE, PtePerm::rx(), alloc);
    if r.is_err() {
        return Err(r.unwrap_err());
    }
    proof {
        assert forall|b: u64| #[trigger] pt.lookup(b) == kvm_lookup(b, etext, trampoline_pa) by {
            assert(p0.lookup(b) is None);
            assert(p1.lookup(b) == (if UART0 <= b < UART0 + UART0_SIZE {
                Some((b, 3u32))
            } else {
                p0.lookup(b)
            }));
            assert(p2.lookup(b) == (if VIRTIO0 <= b < VIRTIO0 + VIRTIO0_SIZE {
                Some((b, 3u32))
            } else {
                p1.lookup(b)
            }));
            assert(p3.lookup(b) == (if PLIC <= b < PLIC + PLIC_SIZE {
                Some((b, 3u32))
            } else {
                p2.lookup(b)
            }));
            assert(p4.lookup(b) == (if KERNBASE <= b < etext {
                Some((b, 5u32))
            } else {
                p3.lookup(b)
            }));
            assert(p5.lookup(b) == (if etext <= b < PHYSTOP {
                Some((b, 3u32))
            } else {
                p4.lookup(b)
            }));
        }
    }
    Ok(pt)
}

} // verus!
