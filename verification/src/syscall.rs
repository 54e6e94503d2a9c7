//! System-call decisions: argument decoding for dispatch, the program
//! break, directory listings, seeks, descriptor flags and signals.
//! Every transfer to or from user memory and every wait stays with the
//! caller; these functions decide what happens.

use vstd::prelude::*;

use crate::file::{FdEntry, File};
use crate::hal::{FrameAllocator, PtePerm, VmError};
use crate::proc::{fd_slot, Proc, NOFILE};
use crate::uapi::{
    access_ok, check_access, kills_by_default, sig_defined, SigAction, SIGALRM, F_DUPFD, F_DUPFD_CLOEXEC, F_GETFD, F_GETFL, F_SETFD, F_SETFL, O_APPEND,
    O_CLOEXEC, O_CREATE, O_NONBLOCK, O_RDONLY, O_RDWR, O_TRUNC, O_WRONLY, SEEK_CUR, SEEK_END, SEEK_SET, SIGKILL,
    SIGSTOP, SIG_BLOCK, SIG_DFL, SIG_IGN, SIG_SETMASK, SIG_UNBLOCK,
};
use crate::sv39::{alloc_ready, lemma_on_page, taken, PageTable};
use crate::user_vm::STACK_VA_BASE;

verus! {

/// Highest break: one guard page below the stack region.
pub const HEAP_TOP: u64 = 0x3f_ffff_5000;

/// Frames of the mapped pages among the `n` pages from `start`, in
/// address order.
pub open spec fn page_frames(pt: &PageTable, start: int, n: int) -> Seq<u64>
    decreases n,
{
    if n <= 0 {
        Seq::empty()
    } else {
        page_frames(pt, start, n - 1) + match pt.lookup((start + (n - 1) * 4096) as u64) {
            Some((p, _)) => seq![p],
            None => Seq::empty(),
        }
    }
}

/// The frames listed for `n` pages from `start` are exactly the frames
/// of those of the pages that are mapped: each mapped page's frame is
/// listed, nothing else is, and there is at most one per page.
pub proof fn law_page_frames(pt: &PageTable, start: int, n: int)
    ensures
        page_frames(pt, start, n).len() <= (if n > 0 {
            n
        } else {
            0
        }),
        forall|k: int|
            0 <= k < n && (#[trigger] pt.lookup((start + k * 4096) as u64)) is Some ==> page_frames(pt, start, n).contains(
                pt.lookup((start + k * 4096) as u64).unwrap().0,
            ),
        forall|p: u64|
            #[trigger] page_frames(pt, start, n).contains(p) ==> exists|k: int|
                0 <= k < n && (#[trigger] pt.lookup((start + k * 4096) as u64)) == Some((p, pt.lookup((start + k
                    * 4096) as u64).unwrap().1)),
    decreases n,
{
    if n > 0 {
        law_page_frames(pt, start, n - 1);
        let prev = page_frames(pt, start, n - 1);
        let cur = page_frames(pt, start, n);
        let last = match pt.lookup((start + (n - 1) * 4096) as u64) {
            Some((p, _)) => seq![p],
            None => Seq::<u64>::empty(),
        };
        assert(cur == prev + last);
        assert forall|k: int|
            0 <= k < n && (#[trigger] pt.lookup((start + k * 4096) as u64)) is Some implies cur.contains(
            pt.lookup((start + k * 4096) as u64).unwrap().0,
        ) by {
            if k < n - 1 {
                let x = pt.lookup((start + k * 4096) as u64).unwrap().0;
                assert(prev.contains(x));
                let j = choose|j: int| 0 <= j < prev.len() && prev[j] == x;
                assert(cur[j] == x);
            } else {
                assert(cur[prev.len() as int] == pt.lookup((start + k * 4096) as u64).unwrap().0);
            }
        }
        assert forall|p: u64| #[trigger] cur.contains(p) implies exists|k: int|
            0 <= k < n && (#[trigger] pt.lookup((start + k * 4096) as u64)) == Some((p, pt.lookup((start + k
                * 4096) as u64).unwrap().1)) by {
            let j = choose|j: int| 0 <= j < cur.len() && cur[j] == p;
            if j < prev.len() {
                assert(prev[j] == p);
                assert(prev.contains(p));
            } else {
                let k = n - 1;
                assert(pt.lookup((start + k * 4096) as u64) == Some((p, pt.lookup((start + k * 4096) as u64).unwrap().1)));
            }
        }
    }
}

/// Unmaps every page of `[start, end)`; returns the frames that were
/// mapped there, lowest page first.
pub fn unmap_range(pt: &mut PageTable, start: u64, end: u64) -> (freed: Vec<u64>)
    requires
        old(pt).wf(),
        start % 4096 == 0,
        end % 4096 == 0,
        start <= end,
    ensures
        final(pt).wf(),
        final(pt).root() == old(pt).root(),
        final(pt).table_pas() == old(pt).table_pas(),
        freed@ == page_frames(old(pt), start as int, (end - start) / 4096),
        forall|b: u64|
            #[trigger] final(pt).lookup(b) == (if start <= b < end {
                None
            } else {
                old(pt).lookup(b)
            }),
{
    let mut freed: Vec<u64> = Vec::new();
    let mut va: u64 = start;
    let ghost pt0 = *pt;
    let ghost mut k: int = 0;
    while va < end
        invariant
            pt.wf(),
            pt.root() == pt0.root(),
            pt.table_pas() == pt0.table_pas(),
            pt0 == *old(pt),
            start % 4096 == 0,
            end % 4096 == 0,
            start <= va <= end,
            va == start + k * 4096,
            0 <= k,
            freed@ == page_frames(&pt0, start as int, k),
            forall|b: u64|
                #[trigger] pt.lookup(b) == (if start <= b < va {
                    None
                } else {
                    pt0.lookup(b)
                }),
        decreases end - va,
    {
        let ghost before = *pt;
        let r = pt.unmap_page(va);
        proof {
            assert(before.lookup(va) == pt0.lookup(va));
            assert((start + (k + 1 - 1) * 4096) as u64 == va);
            assert forall|b: u64| #[trigger] pt.lookup(b) == (if start <= b < va + 4096 {
                None
            } else {
                pt0.lookup(b)
            }) by {
                lemma_on_page(va, b);
                if va <= b < va + 4096 {
                    before.lemma_same_page_lookup(va, b);
                }
            }
        }
        match r {
            Some(p) => {
                freed.push(p);
            },
            None => {},
        }
        proof {
            assert(freed@ =~= page_frames(&pt0, start as int, k + 1));
        }
        va = va + 4096;
        proof {
            k = k + 1;
        }
    }
    proof {
        assert(k == (end - start) / 4096);
    }
    freed
}


/// `n` rounded up to a page boundary.
pub open spec fn pg_up(n: int) -> int {
    (n + 4095) / 4096 * 4096
}

/// Every address of `[start, end)` is mapped user read-write.
pub open spec fn heap_mapped(pt: &PageTable, start: int, end: int) -> bool {
    forall|b: u64| start <= b < end ==> #[trigger] pt.lookup(b) is Some && pt.lookup(b).unwrap().1 == 11u32
}

/// Rounding up to a page boundary gives the least multiple of 4096 at
/// or above `n`.
pub proof fn lemma_pg_up(n: int)
    requires
        n >= 0,
    ensures
        pg_up(n) % 4096 == 0,
        n <= pg_up(n) < n + 4096,
{
    assert(pg_up(n) % 4096 == 0 && n <= pg_up(n) < n + 4096) by (nonlinear_arith)
        requires
            n >= 0,
    ;
}

/// No page boundary `m` at or above `n` lies below `pg_up(n)`.
pub proof fn law_pg_up_least(n: int, m: int)
    requires
        n >= 0,
        m % 4096 == 0,
        m >= n,
    ensures
        pg_up(n) <= m,
{
    lemma_pg_up(n);
    let p = pg_up(n);
    assert(m >= p) by (nonlinear_arith)
        requires
            m % 4096 == 0,
            p % 4096 == 0,
            m >= n,
            p < n + 4096,
    ;
}

/// `sbrk(n, lazy)` on a process whose break is `size`.
///
/// Returns `(result, new_size, frames_to_free)`. The result is the old
/// break, or -1 on failure. Shrinking unmaps every page wholly above
/// the new break and hands back their frames. Growing lazily only moves
/// the break; growing eagerly maps fresh user read-write pages from the
/// old break's page up to the new one, and on failure unmaps what it
/// mapped and hands back those frames. The break cannot pass the page
/// below the stack region.
pub fn sys_sbrk<A: FrameAllocator>(pt: &mut PageTable, alloc: &mut A, size: u64, n: i64, lazy: i64) -> (r: (
    i64,
    u64,
    Vec<u64>,
))
    requires
        old(pt).wf(),
        alloc_ready(old(pt), old(alloc)),
        size + 4095 <= i64::MAX,
        -0x8000_0000 <= n < 0x8000_0000,
    ensures
        final(pt).wf(),
        alloc_ready(final(pt), final(alloc)),
        final(pt).root() == old(pt).root(),
        n == 0 ==> r.0 == size && r.1 == size && r.2@.len() == 0 && *final(pt) == *old(pt)
            && final(alloc).frames() == old(alloc).frames(),
        n < 0 && -n > size ==> r.0 == -1 && r.1 == size && r.2@.len() == 0 && *final(pt) == *old(pt)
            && final(alloc).frames() == old(alloc).frames(),
        n < 0 && -n <= size ==> {
            &&& r.0 == size
            &&& r.1 == size + n
            &&& r.2@ == page_frames(old(pt), pg_up(size + n), (pg_up(size as int) - pg_up(size + n)) / 4096)
            &&& final(alloc).frames() == old(alloc).frames()
            &&& forall|b: u64|
                #[trigger] final(pt).lookup(b) == (if pg_up(size + n) <= b < pg_up(size as int) {
                    None
                } else {
                    old(pt).lookup(b)
                })
        },
        n > 0 && size + n > HEAP_TOP ==> r.0 == -1 && r.1 == size && r.2@.len() == 0 && *final(pt) == *old(
            pt,
        ) && final(alloc).frames() == old(alloc).frames(),
        n > 0 && size + n <= HEAP_TOP && lazy != 0 ==> r.0 == size && r.1 == size + n && r.2@.len() == 0
            && *final(pt) == *old(pt) && final(alloc).frames() == old(alloc).frames(),
        n > 0 && size + n <= HEAP_TOP && lazy == 0 ==> {
            &&& r.0 == size || r.0 == -1
            &&& r.0 == size ==> r.1 == size + n && r.2@.len() == 0 && heap_mapped(
                final(pt),
                pg_up(size as int),
                pg_up(size + n),
            ) && forall|b: u64|
                !(pg_up(size as int) <= b < pg_up(size + n)) ==> #[trigger] final(pt).lookup(b) == old(
                    pt,
                ).lookup(b)
            &&& r.0 == -1 ==> r.1 == size && forall|b: u64| #[trigger] final(pt).lookup(b) == old(pt).lookup(b)
            &&& (forall|b: u64| pg_up(size as int) <= b < pg_up(size + n) ==> #[trigger] old(pt).lookup(b) is None)
                && old(alloc).frames().len() >= 3 * ((pg_up(size + n) - pg_up(size as int)) / 4096) ==> r.0 == size
            &&& final(alloc).frames().len() <= old(alloc).frames().len()
            &&& final(alloc).frames() == old(alloc).frames().subrange(0, final(alloc).frames().len() as int)
            &&& final(pt).table_pas().len() >= old(pt).table_pas().len()
            &&& final(pt).table_pas().subrange(0, old(pt).table_pas().len() as int) == old(pt).table_pas()
            &&& r.0 == -1 ==> taken(old(alloc).frames(), final(alloc).frames()).to_multiset() == final(pt).table_pas().subrange(old(pt).table_pas().len() as int, final(pt).table_pas().len() as int).to_multiset().add(
                r.2@.to_multiset(),
            )
            &&& r.0 == size ==> taken(old(alloc).frames(), final(alloc).frames()).to_multiset() == final(pt).table_pas().subrange(old(pt).table_pas().len() as int, final(pt).table_pas().len() as int).to_multiset().add(
                page_frames(final(pt), pg_up(size as int), (pg_up(size + n) - pg_up(size as int)) / 4096).to_multiset(),
            )
        },
{
    let ghost pt0 = *pt;
    if n == 0 {
        return (size as i64, size, Vec::new());
    }
    if n < 0 {
        let shrink: u64 = (-n) as u64;
        if shrink > size {
            return (-1, size, Vec::new());
        }
        let new_size: u64 = size - shrink;
        proof {
            lemma_pg_up(new_size as int);
            lemma_pg_up(size as int);
        }
        let start: u64 = (new_size + 4095) / 4096 * 4096;
        let end: u64 = (size + 4095) / 4096 * 4096;
        let freed = unmap_range(pt, start, end);
        proof {
            crate::sv39::lemma_ready_same_pages(&pt0, pt, &*alloc);
        }
        return (size as i64, new_size, freed);
    }
    let heap_top: u64 = STACK_VA_BASE - 4096;
    if size > heap_top || n as u64 > heap_top - size {
        return (-1, size, Vec::new());
    }
    let new: u64 = size + n as u64;
    if lazy != 0 {
        return (size as i64, new, Vec::new());
    }
    proof {
        lemma_pg_up(new as int);
        lemma_pg_up(size as int);
        assert(11u32 & 15 == 11u32) by (bit_vector);
    }
    let start: u64 = (size + 4095) / 4096 * 4096;
    let end: u64 = (new + 4095) / 4096 * 4096;
    let mut va: u64 = start;
    let ghost f0 = alloc.frames();
    let ghost mut k: int = 0;
    proof {
        broadcast use vstd::seq_lib::group_seq_properties;
        broadcast use vstd::multiset::group_multiset_axioms;

        assert(taken(f0, alloc.frames()) =~= Seq::<u64>::empty());
        assert(pt.table_pas().subrange(pt0.table_pas().len() as int, pt.table_pas().len() as int) =~= Seq::<
            u64,
        >::empty());
        assert(page_frames(pt, start as int, 0) =~= Seq::<u64>::empty());
        assert(pt.table_pas().subrange(0, pt0.table_pas().len() as int) =~= pt0.table_pas());
        assert(alloc.frames() =~= f0.subrange(0, alloc.frames().len() as int));
        assert(Seq::<u64>::empty().to_multiset().add(Seq::<u64>::empty().to_multiset()) =~= Seq::<
            u64,
        >::empty().to_multiset());
    }
    while va < end
        invariant
            pt.wf(),
            alloc_ready(pt, alloc),
            pt.root() == pt0.root(),
            pt0 == *old(pt),
            f0 == old(alloc).frames(),
            n > 0,
            lazy == 0,
            new == size + n,
            new <= HEAP_TOP,
            start == pg_up(size as int),
            end == pg_up(new as int),
            start % 4096 == 0,
            end % 4096 == 0,
            end <= HEAP_TOP + 4096,
            start <= va <= end,
            va == start + k * 4096,
            0 <= k,
            11u32 & 15 == 11u32,
            alloc.frames().len() + 3 * k >= f0.len(),
            heap_mapped(pt, start as int, va as int),
            forall|b: u64| !(start <= b < va) ==> #[trigger] pt.lookup(b) == pt0.lookup(b),
            forall|b: u64| start <= b < va ==> #[trigger] pt0.lookup(b) is None,
            alloc.frames().len() <= f0.len(),
            alloc.frames() == f0.subrange(0, alloc.frames().len() as int),
            pt.table_pas().len() >= pt0.table_pas().len(),
            pt.table_pas().subrange(0, pt0.table_pas().len() as int) == pt0.table_pas(),
            taken(f0, alloc.frames()).to_multiset() == pt.table_pas().subrange(
                pt0.table_pas().len() as int,
                pt.table_pas().len() as int,
            ).to_multiset().add(page_frames(pt, start as int, k).to_multiset()),
        decreases end - va,
    {
        let ghost fr0 = alloc.frames();
        let ghost a0 = *alloc;
        let ghost leaves = page_frames(pt, start as int, k);
        let pa = match alloc.alloc_zeroed() {
            None => {
                let ghost p1 = *pt;
                let freed = unmap_range(pt, start, va);
                proof {
                    crate::sv39::lemma_ready_same_pages(&p1, pt, &*alloc);
                    assert((va - start) / 4096 == k) by (nonlinear_arith)
                        requires
                            va == start + k * 4096,
                    ;
                }
                return (-1, size, freed);
            },
            Some(p) => p,
        };
        proof {
            assert(fr0[fr0.len() - 1] == pa);
            assert(pa % 4096 == 0 && pa < 0x100_0000_0000_0000);
            crate::sv39::lemma_ready_prefix(pt, &a0, &*alloc);
        }
        let ghost before = *pt;
        let res = pt.map(va, pa, 4096, PtePerm::urw(), alloc);
        if res.is_err() {
            proof {
                assert(va % 4096 == 0 && pa % 4096 == 0 && va + 4096 <= crate::riscv::MAXVA);
                assert(res != Err::<(), VmError>(VmError::Misaligned));
                assert(res != Err::<(), VmError>(VmError::OutOfRange));
                match res {
                    Err(VmError::Remap) => {},
                    Err(VmError::Oom) => {},
                    Err(VmError::Misaligned) => {},
                    Err(VmError::OutOfRange) => {},
                    Ok(()) => {},
                }
                let w = choose|w: int| 0 <= w < 1 && #[trigger] crate::sv39::mapped_pages(&before, pt, va, pa, w, 11u32);
                assert(w == 0);
                assert forall|b: u64| #[trigger] pt.lookup(b) == before.lookup(b) by {
                    assert(crate::sv39::mapped_pages(&before, pt, va, pa, 0, 11u32));
                }
            }
            let mut freed: Vec<u64> = Vec::new();
            freed.push(pa);
            let ghost p1 = *pt;
            let mut more = unmap_range(pt, start, va);
            proof {
                crate::sv39::lemma_ready_same_pages(&p1, pt, &*alloc);
                crate::sv39::lemma_account_step(
                    f0,
                    fr0,
                    alloc.frames(),
                    before.table_pas(),
                    p1.table_pas(),
                    pt0.table_pas().len() as int,
                    leaves,
                    pa,
                );
                assert(before.table_pas().subrange(0, pt0.table_pas().len() as int) =~= pt0.table_pas());
                assert((va - start) / 4096 == k) by (nonlinear_arith)
                    requires
                        va == start + k * 4096,
                ;
                lemma_page_frames_same(&p1, &before, start as int, k);
            }
            let ghost m = more@;
            freed.append(&mut more);
            proof {
                assert(freed@ =~= seq![pa] + m);
                vstd::seq_lib::lemma_seq_union_to_multiset_commutative(seq![pa], m);
                assert(m + seq![pa] =~= leaves.push(pa));
            }
            return (-1, size, freed);
        }
        proof {
            assert(before.lookup((va + 0 * 4096) as u64) is None);
            assert forall|b: u64| start <= b < va + 4096 implies #[trigger] pt.lookup(b) is Some && pt.lookup(b).unwrap().1
                == 11u32 by {
                if b < va {
                    assert(pt.lookup(b) == before.lookup(b));
                }
            }
            assert forall|b: u64| !(start <= b < va + 4096) implies #[trigger] pt.lookup(b) == pt0.lookup(b) by {
                assert(pt.lookup(b) == before.lookup(b));
            }
            assert forall|b: u64| start <= b < va + 4096 implies #[trigger] pt0.lookup(b) is None by {
                if b >= va {
                    lemma_on_page(va, b);
                    before.lemma_same_page_lookup(va, b);
                    assert(before.lookup(b) == pt0.lookup(b));
                }
            }
        }
        proof {
            crate::sv39::lemma_account_step(
                f0,
                fr0,
                alloc.frames(),
                before.table_pas(),
                pt.table_pas(),
                pt0.table_pas().len() as int,
                leaves,
                pa,
            );
            assert(before.table_pas().subrange(0, pt0.table_pas().len() as int) =~= pt0.table_pas());
            lemma_page_frames_same(pt, &before, start as int, k);
            assert((start + (k + 1 - 1) * 4096) as u64 == va);
            assert(page_frames(pt, start as int, k + 1) =~= leaves.push(pa));
        }
        va = va + 4096;
        proof {
            k = k + 1;
        }
    }
    proof {
        assert(k == (end - start) / 4096) by (nonlinear_arith)
            requires
                end == start + k * 4096,
        ;
    }
    (size as i64, new, Vec::new())
}

/// `page_frames` reads only the pages it covers.
proof fn lemma_page_frames_same(p: &PageTable, q: &PageTable, start: int, k: int)
    requires
        0 <= start,
        0 <= k,
        start + k * 4096 <= u64::MAX,
        forall|b: u64| start <= b < start + k * 4096 ==> #[trigger] p.lookup(b) == q.lookup(b),
    ensures
        page_frames(p, start, k) == page_frames(q, start, k),
    decreases k,
{
    if k > 0 {
        lemma_page_frames_same(p, q, start, k - 1);
        let b = (start + (k - 1) * 4096) as u64;
        assert(p.lookup(b) == q.lookup(b));
    }
}

/// Shrinking the break by the amount that an eager grow added gives the
/// process back exactly the mappings it had before the grow. The three
/// page tables are related as `sys_sbrk` states: `p1` after a successful
/// eager `sbrk(n)` from break `size` over a heap with nothing mapped
/// above the break, `p2` after `sbrk(-n)` from break `size + n`.
pub proof fn law_sbrk_shrink_undoes_grow(p0: PageTable, p1: PageTable, p2: PageTable, size: int, n: int)
    requires
        0 <= size,
        0 < n,
        forall|b: u64| pg_up(size) <= b < pg_up(size + n) ==> #[trigger] p0.lookup(b) is None,
        forall|b: u64| !(pg_up(size) <= b < pg_up(size + n)) ==> #[trigger] p1.lookup(b) == p0.lookup(b),
        forall|b: u64|
            #[trigger] p2.lookup(b) == (if pg_up((size + n) + (-n)) <= b < pg_up(size + n) {
                None
            } else {
                p1.lookup(b)
            }),
    ensures
        forall|b: u64| #[trigger] p2.lookup(b) == p0.lookup(b),
{
    assert((size + n) + (-n) == size);
    assert forall|b: u64| #[trigger] p2.lookup(b) == p0.lookup(b) by {
        if pg_up(size) <= b < pg_up(size + n) {
            assert(p0.lookup(b) is None);
        } else {
            assert(p1.lookup(b) == p0.lookup(b));
        }
    }
}


/// Page fault at `fault_va` in a process whose break is `size`: maps a
/// fresh user read-write page there when the address lies below the
/// break (lazily grown heap). Returns whether the fault is resolved,
/// and a frame to give back when mapping it failed.
pub fn lazy_map_page<A: FrameAllocator>(pt: &mut PageTable, alloc: &mut A, size: u64, fault_va: u64) -> (r: (
    bool,
    Option<u64>,
))
    requires
        old(pt).wf(),
        alloc_ready(old(pt), old(alloc)),
    ensures
        final(pt).wf(),
        alloc_ready(final(pt), final(alloc)),
        final(pt).root() == old(pt).root(),
        fault_va >= size ==> r == (false, None::<u64>) && *final(pt) == *old(pt),
        fault_va < size && old(pt).lookup((fault_va / 4096 * 4096) as u64) is Some ==> r == (true, None::<u64>)
            && *final(pt) == *old(pt),
        r.0 ==> final(pt).lookup(fault_va) is Some,
        r.0 && old(pt).lookup(fault_va) is None ==> final(pt).lookup(fault_va).unwrap().1 == 11u32,
        forall|b: u64| b / 4096 != fault_va / 4096 ==> #[trigger] final(pt).lookup(b) == old(pt).lookup(b),
        fault_va < size && fault_va < crate::riscv::MAXVA && old(pt).lookup(fault_va) is None && old(
            alloc,
        ).frames().len() >= 3 ==> r.0,
{
    if fault_va >= size {
        return (false, None);
    }
    let page: u64 = fault_va / 4096 * 4096;
    proof {
        lemma_on_page(page, fault_va);
        assert(page % 4096 == 0 && page <= fault_va < page + 4096) by (nonlinear_arith)
            requires
                page == fault_va / 4096 * 4096,
        ;
        pt.lemma_same_page_lookup(page, fault_va);
        assert(11u32 & 15 == 11u32) by (bit_vector);
    }
    if pt.translate(page).is_some() {
        return (true, None);
    }
    let ghost fr0 = alloc.frames();
    let ghost a0 = *alloc;
    let pa = match alloc.alloc_zeroed() {
        None => return (false, None),
        Some(p) => p,
    };
    proof {
        assert(fr0[fr0.len() - 1] == pa);
        assert(pa % 4096 == 0 && pa < 0x100_0000_0000_0000);
        crate::sv39::lemma_ready_prefix(pt, &a0, &*alloc);
    }
    let ghost before = *pt;
    let res = pt.map(page, pa, 4096, PtePerm::urw(), alloc);
    match res {
        Err(e) => {
            proof {
                match res {
                    Err(VmError::Remap) => {},
                    Err(VmError::Oom) => {},
                    Err(VmError::Misaligned) => {},
                    Err(VmError::OutOfRange) => {},
                    Ok(()) => {},
                }
                if e == VmError::Remap || e == VmError::Oom {
                    let w = choose|w: int| 0 <= w < 1 && #[trigger] crate::sv39::mapped_pages(&before, pt, page, pa, w, 11u32);
                    assert(w == 0);
                    assert forall|b: u64| #[trigger] pt.lookup(b) == before.lookup(b) by {
                        assert(crate::sv39::mapped_pages(&before, pt, page, pa, 0, 11u32));
                    }
                }
            }
            (false, Some(pa))
        },
        Ok(()) => {
            proof {
                assert forall|b: u64| b / 4096 != fault_va / 4096 implies #[trigger] pt.lookup(b) == before.lookup(b) by {
                    lemma_on_page(page, b);
                }
            }
            (true, None)
        },
    }
}


/// Size of one `getdents` record: ino (u64), reclen (u16), namelen
/// (u16), name (14 bytes), padding to 32.
pub const DIRENT_OUT: usize = 32;

/// Length of the name of the directory entry at `off` of `dir`.
pub open spec fn entry_name_len(dir: Seq<u8>, off: int) -> int {
    crate::layout::stored_name_len(dir.subrange(off + 2, off + 16))
}

/// Byte `k` of the `getdents` record for the entry at `off` of `dir`.
pub open spec fn rec_byte(dir: Seq<u8>, off: int, k: int) -> u8 {
    if k == 0 {
        dir[off]
    } else if k == 1 {
        dir[off + 1]
    } else if k == 8 {
        32
    } else if k == 10 {
        entry_name_len(dir, off) as u8
    } else if 12 <= k < 26 && k - 12 < entry_name_len(dir, off) {
        dir[off + 2 + (k - 12)]
    } else {
        0
    }
}

/// The `getdents` record for the entry at `off` of `dir`.
pub open spec fn user_rec(dir: Seq<u8>, off: int) -> Seq<u8> {
    Seq::new(32, |k: int| rec_byte(dir, off, k))
}

/// Records for the directory `dir` (its whole contents) read from
/// offset `off` while at least one more record fits in `budget`
/// bytes: empty entries (inode 0) are skipped; a partial entry at the
/// end stops the listing. Also gives the offset reached.
pub open spec fn listing(dir: Seq<u8>, off: int, budget: int) -> (Seq<u8>, int)
    decreases dir.len() - off,
{
    if budget < 32 || off < 0 || off >= dir.len() || off + 16 > dir.len() {
        (Seq::empty(), off)
    } else if crate::bytes::le16(dir, off) == 0 {
        listing(dir, off + 16, budget)
    } else {
        let rest = listing(dir, off + 16, budget - 32);
        (user_rec(dir, off) + rest.0, rest.1)
    }
}

/// Live entries (nonzero inode number) among the 16-byte directory
/// entries of `dir` at `from`, `from + 16`, ... below `to`.
pub open spec fn live_count(dir: Seq<u8>, from: int, to: int) -> nat
    decreases (if from < to {
        to - from
    } else {
        0
    }),
{
    if from >= to {
        0
    } else {
        live_count(dir, from + 16, to) + if crate::bytes::le16(dir, from) != 0 {
            1nat
        } else {
            0
        }
    }
}

/// Counting live entries over `[from, end)` is counting over
/// `[from, e)` and then `[e, end)`, for `e` on an entry boundary.
proof fn lemma_live_count_split(dir: Seq<u8>, from: int, e: int, end: int)
    requires
        from <= e <= end,
        (e - from) % 16 == 0,
    ensures
        live_count(dir, from, end) == live_count(dir, from, e) + live_count(dir, e, end),
        e < end && crate::bytes::le16(dir, e) != 0 ==> live_count(dir, e, end) >= 1,
    decreases e - from,
{
    if from < e {
        lemma_live_count_split(dir, from + 16, e, end);
    }
}

/// The stored name of a directory entry is its bytes up to the first
/// NUL, at most `DIRSIZ` (14) of them.
proof fn lemma_stored_name_len(s: Seq<u8>, i: int)
    requires
        s.len() >= 14,
        0 <= i <= 14,
    ensures
        i <= crate::layout::stored_name_len_from(s, i) <= 14,
        forall|j: int| i <= j < crate::layout::stored_name_len_from(s, i) ==> s[j] != 0,
        crate::layout::stored_name_len_from(s, i) < 14 ==> s[crate::layout::stored_name_len_from(s, i)] == 0,
    decreases 14 - i,
{
    if i < 14 && s[i] != 0 {
        lemma_stored_name_len(s, i + 1);
    }
}

/// The `getdents` record of the directory entry at `off`: 32 bytes,
/// the inode number as a 64-bit little-endian value, the record length
/// 32 as 16 bits, the name length as 16 bits, then the name (the entry's
/// bytes up to its first NUL, at most 14) NUL-padded, and zero padding.
pub proof fn law_user_rec_layout(dir: Seq<u8>, off: int)
    requires
        0 <= off,
        off + 16 <= dir.len(),
    ensures
        ({
            let rec = user_rec(dir, off);
            let nl = entry_name_len(dir, off);
            &&& rec.len() == 32
            &&& rec[0] == dir[off] && rec[1] == dir[off + 1]
            &&& forall|k: int| 2 <= k < 8 ==> rec[k] == 0
            &&& rec[8] == 32 && rec[9] == 0
            &&& 0 <= nl <= 14 && rec[10] == nl && rec[11] == 0
            &&& forall|i: int| 0 <= i < nl ==> #[trigger] dir.subrange(off + 2, off + 16)[i] != 0
            &&& forall|k: int| 12 <= k < 12 + nl ==> #[trigger] rec[k] == dir[off + 2 + (k - 12)]
            &&& nl < 14 ==> dir[off + 2 + nl] == 0
            &&& forall|k: int| 12 + nl <= k < 32 ==> rec[k] == 0
        }),
{
    let st = dir.subrange(off + 2, off + 16);
    lemma_stored_name_len(st, 0);
    let nl = entry_name_len(dir, off);
    assert forall|k: int| 12 <= k < 12 + nl implies #[trigger] user_rec(dir, off)[k] == dir[off + 2 + (k - 12)] by {
        assert(user_rec(dir, off)[k] == rec_byte(dir, off, k));
    }
    if nl < 14 {
        assert(st[nl] == dir[off + 2 + nl]);
    }
    assert forall|k: int| 12 + nl <= k < 32 implies #[trigger] user_rec(dir, off)[k] == 0 by {
        assert(user_rec(dir, off)[k] == rec_byte(dir, off, k));
    }
}

/// What `getdents` lists from offset `off` with room for `budget` bytes
/// (the records and the offset reached `end`): it steps over whole
/// entries; it gives one 32-byte record per live entry it passes and
/// none for empty ones, in directory order, the record of the live
/// entry at `e` being `user_rec(dir, e)` at position `32 * (live entries
/// before e)`; it never exceeds the budget; and it stops only at the end
/// of the entries or when no further record would fit.
pub proof fn law_listing(dir: Seq<u8>, off: int, budget: int)
    requires
        0 <= off,
    ensures
        ({
            let (out, end) = listing(dir, off, budget);
            &&& off <= end
            &&& (end - off) % 16 == 0
            &&& end == off || end <= dir.len()
            &&& out.len() == 32 * live_count(dir, off, end)
            &&& out.len() <= (if budget > 0 {
                budget
            } else {
                0
            })
            &&& end + 16 <= dir.len() ==> budget - out.len() < 32
            &&& forall|e: int|
                off <= e < end && (e - off) % 16 == 0 && crate::bytes::le16(dir, e) != 0 ==> out.subrange(
                    32 * (live_count(dir, off, e) as int),
                    32 * (live_count(dir, off, e) as int) + 32,
                ) == #[trigger] user_rec(dir, e)
        }),
    decreases dir.len() - off,
{
    if budget < 32 || off >= dir.len() || off + 16 > dir.len() {
    } else if crate::bytes::le16(dir, off) == 0 {
        law_listing(dir, off + 16, budget);
        let (out, end) = listing(dir, off + 16, budget);
        assert(live_count(dir, off, end) == live_count(dir, off + 16, end));
        assert forall|e: int|
            off <= e < end && (e - off) % 16 == 0 && crate::bytes::le16(dir, e) != 0 implies out.subrange(
            32 * (live_count(dir, off, e) as int),
            32 * (live_count(dir, off, e) as int) + 32,
        ) == #[trigger] user_rec(dir, e) by {
            assert(e != off);
            assert(live_count(dir, off, e) == live_count(dir, off + 16, e));
            assert((e - (off + 16)) % 16 == 0);
        }
    } else {
        law_listing(dir, off + 16, budget - 32);
        let rest = listing(dir, off + 16, budget - 32);
        let (out, end) = listing(dir, off, budget);
        let r0 = user_rec(dir, off);
        assert(out == r0 + rest.0);
        assert(end == rest.1);
        assert(live_count(dir, off, end) == live_count(dir, off + 16, end) + 1);
        assert(out.subrange(0, 32) =~= r0);
        assert forall|e: int|
            off <= e < end && (e - off) % 16 == 0 && crate::bytes::le16(dir, e) != 0 implies out.subrange(
            32 * (live_count(dir, off, e) as int),
            32 * (live_count(dir, off, e) as int) + 32,
        ) == #[trigger] user_rec(dir, e) by {
            if e == off {
                assert(live_count(dir, off, e) == 0);
            } else {
                lemma_live_count_split(dir, off + 16, e, end);
                let c: int = live_count(dir, off + 16, e) as int;
                assert(live_count(dir, off, e) == c + 1);
                assert((e - (off + 16)) % 16 == 0);
                assert(rest.0.subrange(32 * c, 32 * c + 32) == user_rec(dir, e));
                assert(out.subrange(32 * (c + 1), 32 * (c + 1) + 32) =~= rest.0.subrange(32 * c, 32 * c + 32));
            }
        }
    }
}

/// Appends the record for the entry at `off` of `dir`.
fn push_record(out: &mut Vec<u8>, dir: &[u8], off: usize)
    requires
        off + 16 <= dir@.len(),
    ensures
        final(out)@ == old(out)@ + user_rec(dir@, off as int),
{
    let ent = crate::layout::Dirent::decode(dir, off);
    let nl: usize = ent.name_len();
    proof {
        assert(ent.name@ =~= dir@.subrange(off + 2, off + 16));
        lemma_name_len_bound(ent.name@, 0);
    }
    let _dl: usize = dir.len();
    let mut k: usize = 0;
    while k < 32
        invariant
            off + 16 <= dir@.len(),
            _dl == dir@.len(),
            k <= 32,
            nl == entry_name_len(dir@, off as int),
            nl <= 14,
            forall|i: int| 0 <= i < 14 ==> ent.name@[i] == dir@[off + 2 + i],
            out@ == old(out)@ + Seq::new(k as nat, |j: int| rec_byte(dir@, off as int, j)),
        decreases 32 - k,
    {
        let b: u8 = if k == 0 {
            dir[off]
        } else if k == 1 {
            dir[off + 1]
        } else if k == 8 {
            32
        } else if k == 10 {
            nl as u8
        } else if 12 <= k && k < 26 && k - 12 < nl {
            ent.name[k - 12]
        } else {
            0
        };
        out.push(b);
        proof {
            assert(out@ =~= old(out)@ + Seq::new((k + 1) as nat, |j: int| rec_byte(dir@, off as int, j)));
        }
        k = k + 1;
    }
    proof {
        assert(out@ =~= old(out)@ + user_rec(dir@, off as int));
    }
}

proof fn lemma_name_len_bound(s: Seq<u8>, i: int)
    requires
        0 <= i,
    ensures
        crate::layout::stored_name_len_from(s, i) <= 14,
    decreases 14 - i,
{
    if i < 14 {
        lemma_name_len_bound(s, i + 1);
    }
}

/// Outcome of the checks `getdents` makes before listing: the offset
/// to list from, or `None`.
pub open spec fn getdents_precheck_spec(len: u64, file: Option<File>, typ: u16) -> Option<u32> {
    if len < 32 || typ != crate::layout::T_DIR {
        None
    } else {
        match file {
            Some(File::Inode { inum: _, off, readable, writable: _, append: _ }) => if readable {
                Some(off)
            } else {
                None
            },
            _ => None,
        }
    }
}

/// A listing holds at most two bytes per directory byte left.
proof fn lemma_listing_len(dir: Seq<u8>, off: int, budget: int)
    ensures
        listing(dir, off, budget).0.len() <= (if 0 <= off <= dir.len() {
            2 * (dir.len() - off)
        } else {
            0
        }),
    decreases dir.len() - off,
{
    if budget < 32 || off < 0 || off >= dir.len() || off + 16 > dir.len() {
    } else if crate::bytes::le16(dir, off) == 0 {
        lemma_listing_len(dir, off + 16, budget);
    } else {
        lemma_listing_len(dir, off + 16, budget - 32);
    }
}

/// `getdents` goes on to list exactly when the buffer holds at least
/// one 32-byte record, the inode is a directory (type 1), and the fd is
/// an inode opened for reading; it then lists from that open file's
/// offset.
pub proof fn law_getdents_checks(len: u64, file: Option<File>, typ: u16)
    ensures
        getdents_precheck_spec(len, file, typ) is Some <==> (len >= 32 && typ == 1 && file matches Some(
            File::Inode { readable: true, .. },
        )),
        getdents_precheck_spec(len, file, typ) is Some ==> (file matches Some(File::Inode { off, .. })
            && getdents_precheck_spec(len, file, typ) == Some(off)),
{
}

/// The checks `getdents(fd, buf, len)` makes before listing, given the
/// open file at `fd` (`None` if `fd` is not open) and the type `typ` of
/// its inode: the offset to list from, or `None` (the call returns -1)
/// when `len` cannot hold one record, the file is not an inode opened
/// for reading, or the inode is not a directory.
pub fn getdents_precheck(len: u64, file: Option<File>, typ: u16) -> (r: Option<u32>)
    ensures
        r == getdents_precheck_spec(len, file, typ),
{
    if len < 32 || typ != crate::layout::T_DIR {
        return None;
    }
    match file {
        Some(File::Inode { inum: _, off, readable, writable: _, append: _ }) => if readable {
            Some(off)
        } else {
            None
        },
        _ => None,
    }
}

/// `getdents` over the directory contents `dir`, from offset `off`,
/// into a buffer of `len` bytes: the packed records and the offset to
/// store back, or `None` (the call fails) when not even one record
/// fits.
pub fn getdents_fill(dir: &[u8], off: u32, len: u64) -> (r: Option<(Vec<u8>, u32)>)
    requires
        dir@.len() <= u32::MAX,
    ensures
        len < 32 ==> r is None,
        len >= 32 ==> (r matches Some((out, o)) && (out@, o as int) == listing(dir@, off as int, len as int)),
{
    if len < 32 {
        return None;
    }
    let size: usize = dir.len();
    let mut out: Vec<u8> = Vec::new();
    let mut cur: u32 = off;
    let mut copied: u64 = 0;
    while 32 <= len - copied && (cur as usize) < size && 16 <= size - (cur as usize)
        invariant
            size == dir@.len(),
            size <= u32::MAX,
            copied <= len,
            out@.len() == copied,
            listing(dir@, off as int, len as int) == (out@ + listing(dir@, cur as int, len - copied).0, listing(
                dir@,
                cur as int,
                len - copied,
            ).1),
        decreases size - cur,
    {
        let inum: u16 = crate::bytes::get_u16(dir, cur as usize);
        let ghost c0 = cur as int;
        let ghost b0 = len - copied;
        if inum == 0 {
            cur = cur + 16;
            proof {
                assert(listing(dir@, c0, b0) == listing(dir@, c0 + 16, b0));
            }
        } else {
            let ghost o0 = out@;
            push_record(&mut out, dir, cur as usize);
            cur = cur + 16;
            copied = copied + 32;
            proof {
                let rest = listing(dir@, c0 + 16, b0 - 32);
                assert(listing(dir@, c0, b0) == (user_rec(dir@, c0) + rest.0, rest.1));
                assert(o0 + (user_rec(dir@, c0) + rest.0) =~= out@ + rest.0);
            }
        }
    }
    proof {
        assert(listing(dir@, cur as int, len - copied) == (Seq::<u8>::empty(), cur as int));
        assert(out@ + Seq::<u8>::empty() =~= out@);
    }
    Some((out, cur))
}

/// User address `b` can be written by a system call: it is an address,
/// and its page is mapped user-writable.
pub open spec fn user_writable(pt: &PageTable, b: int) -> bool {
    &&& 0 <= b <= u64::MAX
    &&& pt.lookup(b as u64) is Some
    &&& pt.lookup(b as u64).unwrap().1 & 10 == 10
}

/// How many bytes from user address `va` on, up to `n`, can be written
/// before the first one that cannot.
pub fn writable_prefix(pt: &PageTable, va: u64, n: u64) -> (k: u64)
    requires
        pt.wf(),
    ensures
        k <= n,
        forall|j: int| 0 <= j < k ==> #[trigger] user_writable(pt, va + j),
        k < n ==> !user_writable(pt, va + k),
{
    let mut i: u64 = 0;
    while i < n
        invariant
            pt.wf(),
            i <= n,
            forall|j: int| 0 <= j < i ==> #[trigger] user_writable(pt, va + j),
        decreases n - i,
    {
        if i > u64::MAX - va {
            return i;
        }
        match pt.translate(va + i) {
            None => {
                return i;
            },
            Some((_, perm)) => {
                if perm.0 & 10 != 10 {
                    return i;
                }
            },
        }
        i = i + 1;
    }
    i
}

/// What `getdents` answers: the return value, the offset to store back
/// in the open file (`None`: left as it was) and the bytes to copy out
/// to the user buffer.
#[derive(Debug)]
pub struct GetdentsReply {
    pub ret: i64,
    pub off: Option<u32>,
    pub copy_out: Vec<u8>,
}

/// `getdents(fd, buf_va, len)` for the open file `file` at `fd` (`None`
/// if not open) whose inode has type `typ` and contents `dir`, in the
/// address space `pt`. -1 when the checks of `getdents_precheck` fail.
/// Otherwise the records `listing` gives from the file's offset are
/// copied out byte by byte: if every byte lands in writable user memory
/// the call returns their length (0 at the end of the directory,
/// whatever the buffer) and the offset moves past the listed entries;
/// at the first byte that cannot be written it returns -1, having
/// copied the bytes before it, and the offset stays.
pub fn sys_getdents_in(pt: &PageTable, file: Option<File>, typ: u16, dir: &[u8], buf_va: u64, len: u64) -> (r:
    GetdentsReply)
    requires
        pt.wf(),
        dir@.len() <= u32::MAX,
    ensures
        ({
            match getdents_precheck_spec(len, file, typ) {
                None => r.ret == -1 && r.off is None && r.copy_out@.len() == 0,
                Some(off) => {
                    let (out, noff) = listing(dir@, off as int, len as int);
                    if forall|j: int| 0 <= j < out.len() ==> #[trigger] user_writable(pt, buf_va + j) {
                        r.ret == out.len() && r.off == Some(noff as u32) && r.copy_out@ == out
                    } else {
                        exists|k: int|
                            0 <= k < out.len() && !user_writable(pt, buf_va + k) && (forall|j: int|
                                0 <= j < k ==> #[trigger] user_writable(pt, buf_va + j)) && r.ret == -1 && r.off is None
                                && r.copy_out@ == out.take(k)
                    }
                },
            }
        }),
{
    let off = match getdents_precheck(len, file, typ) {
        None => {
            return GetdentsReply { ret: -1, off: None, copy_out: Vec::new() };
        },
        Some(o) => o,
    };
    let (out, noff) = match getdents_fill(dir, off, len) {
        None => {
            return GetdentsReply { ret: -1, off: None, copy_out: Vec::new() };
        },
        Some(x) => x,
    };
    proof {
        lemma_listing_len(dir@, off as int, len as int);
    }
    let n: u64 = out.len() as u64;
    let k = writable_prefix(pt, buf_va, n);
    if k < n {
        let part = vstd::slice::slice_to_vec(vstd::slice::slice_subrange(out.as_slice(), 0, k as usize));
        proof {
            assert(part@ =~= out@.take(k as int));
        }
        GetdentsReply { ret: -1, off: None, copy_out: part }
    } else {
        GetdentsReply { ret: n as i64, off: Some(noff), copy_out: out }
    }
}


pub const SYS_FORK: u64 = 1;
pub const SYS_EXIT: u64 = 2;
pub const SYS_WAIT: u64 = 3;
pub const SYS_PIPE: u64 = 4;
pub const SYS_READ: u64 = 5;
pub const SYS_KILL: u64 = 6;
pub const SYS_EXEC: u64 = 7;
pub const SYS_FSTAT: u64 = 8;
pub const SYS_CHDIR: u64 = 9;
pub const SYS_DUP: u64 = 10;
pub const SYS_GETPID: u64 = 11;
pub const SYS_SBRK: u64 = 12;
pub const SYS_SLEEP: u64 = 13;
pub const SYS_UPTIME: u64 = 14;
pub const SYS_OPEN: u64 = 15;
pub const SYS_WRITE: u64 = 16;
pub const SYS_MKNOD: u64 = 17;
pub const SYS_UNLINK: u64 = 18;
pub const SYS_LINK: u64 = 19;
pub const SYS_MKDIR: u64 = 20;
pub const SYS_CLOSE: u64 = 21;
pub const SYS_LSEEK: u64 = 22;
pub const SYS_PREAD: u64 = 23;
pub const SYS_PWRITE: u64 = 24;
pub const SYS_STAT: u64 = 25;
pub const SYS_CHMOD: u64 = 26;
pub const SYS_CHOWN: u64 = 27;
pub const SYS_GETUID: u64 = 28;
pub const SYS_GETGID: u64 = 29;
pub const SYS_SETUID: u64 = 30;
pub const SYS_SETGID: u64 = 31;
pub const SYS_GETEUID: u64 = 32;
pub const SYS_GETEGID: u64 = 33;
pub const SYS_UMASK: u64 = 34;
pub const SYS_FCNTL: u64 = 35;
pub const SYS_FTRUNCATE: u64 = 36;
pub const SYS_TRUNCATE: u64 = 37;
pub const SYS_SIGACTION: u64 = 38;
pub const SYS_SIGRETURN: u64 = 39;
pub const SYS_SIGPROCMASK: u64 = 40;
pub const SYS_DUP2: u64 = 41;
pub const SYS_GETCWD: u64 = 42;
pub const SYS_RENAME: u64 = 43;
pub const SYS_WAITPID: u64 = 44;
pub const SYS_PAUSE: u64 = 45;
pub const SYS_ALARM: u64 = 46;
pub const SYS_CLOCK_GETTIME: u64 = 47;
pub const SYS_GETDENTS: u64 = 48;

/// A decoded system call with its typed arguments.
#[derive(Clone, Copy, Debug, PartialEq, Eq, Structural)]
pub enum Syscall {
    Fork,
    Exit { code: i32 },
    Wait { status_va: u64 },
    Write { fd: i32, buf_va: u64, len: u64 },
    Read { fd: i32, buf_va: u64, len: u64 },
    Sleep { ticks: u64 },
    Exec { path_va: u64, argv_va: u64 },
    Pipe { pipefd_va: u64 },
    Close { fd: i32 },
    Dup { fd: i32 },
    Open { path_va: u64, flags: u32 },
    Fstat { fd: i32, stat_va: u64 },
    Getpid,
    Uptime,
    Kill { pid: i32, sig: i32 },
    Sbrk { n: i64, lazy: i64 },
    Mkdir { path_va: u64 },
    Mknod { path_va: u64, major: u16, minor: u16 },
    Unlink { path_va: u64 },
    Chdir { path_va: u64 },
    Link { old_va: u64, new_va: u64 },
    Lseek { fd: i32, offset: i64, whence: i32 },
    Pread { fd: i32, buf_va: u64, len: u64, offset: i64 },
    Pwrite { fd: i32, buf_va: u64, len: u64, offset: i64 },
    Stat { path_va: u64, stat_va: u64 },
    Chmod { path_va: u64, mode: u16 },
    Chown { path_va: u64, uid: u16, gid: u16 },
    Getuid,
    Getgid,
    Setuid { new_uid: u32 },
    Setgid { new_gid: u32 },
    Umask { mask: u32 },
    Fcntl { fd: i32, cmd: i32, arg: i64 },
    Ftruncate { fd: i32, length: i64 },
    Truncate { path_va: u64, length: i64 },
    Sigaction { signum: i32, handler: u64, restorer: u64, mask: u32 },
    Sigreturn,
    Sigprocmask { how: i32, set: u32, oldset_va: u64 },
    Dup2 { oldfd: i32, newfd: i32 },
    Getcwd { buf_va: u64, len: u64 },
    Rename { old_va: u64, new_va: u64 },
    Waitpid { pid: i32, status_va: u64, options: i32 },
    Pause,
    Alarm { secs: u32 },
    ClockGettime { clk: i32, ts_va: u64 },
    Getdents { fd: i32, buf_va: u64, len: u64 },
    /// A number no system call has.
    Unknown,
}

/// What system call `nr` with trap-frame arguments `a0..a3` asks for.
/// 32-bit arguments are the low halves of their registers; `sbrk`'s
/// count and flag are sign-extended from 32 bits; `chmod` keeps the
/// low 12 mode bits and `umask` the low 9.
pub open spec fn syscall_of(nr: u64, a0: u64, a1: u64, a2: u64, a3: u64) -> Syscall {
    if nr == SYS_FORK {
        Syscall::Fork
    } else if nr == SYS_EXIT {
        Syscall::Exit { code: a0 as i32 }
    } else if nr == SYS_WAIT {
        Syscall::Wait { status_va: a0 }
    } else if nr == SYS_WRITE {
        Syscall::Write { fd: a0 as i32, buf_va: a1, len: a2 }
    } else if nr == SYS_READ {
        Syscall::Read { fd: a0 as i32, buf_va: a1, len: a2 }
    } else if nr == SYS_SLEEP {
        Syscall::Sleep { ticks: a0 }
    } else if nr == SYS_EXEC {
        Syscall::Exec { path_va: a0, argv_va: a1 }
    } else if nr == SYS_PIPE {
        Syscall::Pipe { pipefd_va: a0 }
    } else if nr == SYS_CLOSE {
        Syscall::Close { fd: a0 as i32 }
    } else if nr == SYS_DUP {
        Syscall::Dup { fd: a0 as i32 }
    } else if nr == SYS_OPEN {
        Syscall::Open { path_va: a0, flags: a1 as u32 }
    } else if nr == SYS_FSTAT {
        Syscall::Fstat { fd: a0 as i32, stat_va: a1 }
    } else if nr == SYS_GETPID {
        Syscall::Getpid
    } else if nr == SYS_UPTIME {
        Syscall::Uptime
    } else if nr == SYS_KILL {
        Syscall::Kill { pid: a0 as i32, sig: a1 as i32 }
    } else if nr == SYS_SBRK {
        Syscall::Sbrk { n: a0 as i32 as i64, lazy: a1 as i32 as i64 }
    } else if nr == SYS_MKDIR {
        Syscall::Mkdir { path_va: a0 }
    } else if nr == SYS_MKNOD {
        Syscall::Mknod { path_va: a0, major: a1 as u16, minor: a2 as u16 }
    } else if nr == SYS_UNLINK {
        Syscall::Unlink { path_va: a0 }
    } else if nr == SYS_CHDIR {
        Syscall::Chdir { path_va: a0 }
    } else if nr == SYS_LINK {
        Syscall::Link { old_va: a0, new_va: a1 }
    } else if nr == SYS_LSEEK {
        Syscall::Lseek { fd: a0 as i32, offset: a1 as i64, whence: a2 as i32 }
    } else if nr == SYS_PREAD {
        Syscall::Pread { fd: a0 as i32, buf_va: a1, len: a2, offset: a3 as i64 }
    } else if nr == SYS_PWRITE {
        Syscall::Pwrite { fd: a0 as i32, buf_va: a1, len: a2, offset: a3 as i64 }
    } else if nr == SYS_STAT {
        Syscall::Stat { path_va: a0, stat_va: a1 }
    } else if nr == SYS_CHMOD {
        Syscall::Chmod { path_va: a0, mode: ((a1 as u32) & 0o7777) as u16 }
    } else if nr == SYS_CHOWN {
        Syscall::Chown { path_va: a0, uid: a1 as u16, gid: a2 as u16 }
    } else if nr == SYS_GETUID {
        Syscall::Getuid
    } else if nr == SYS_GETEUID {
        Syscall::Getuid
    } else if nr == SYS_GETGID {
        Syscall::Getgid
    } else if nr == SYS_GETEGID {
        Syscall::Getgid
    } else if nr == SYS_SETUID {
        Syscall::Setuid { new_uid: a0 as u32 }
    } else if nr == SYS_SETGID {
        Syscall::Setgid { new_gid: a0 as u32 }
    } else if nr == SYS_UMASK {
        Syscall::Umask { mask: (a0 as u32) & 0o777 }
    } else if nr == SYS_FCNTL {
        Syscall::Fcntl { fd: a0 as i32, cmd: a1 as i32, arg: a2 as i64 }
    } else if nr == SYS_FTRUNCATE {
        Syscall::Ftruncate { fd: a0 as i32, length: a1 as i64 }
    } else if nr == SYS_TRUNCATE {
        Syscall::Truncate { path_va: a0, length: a1 as i64 }
    } else if nr == SYS_SIGACTION {
        Syscall::Sigaction { signum: a0 as i32, handler: a1, restorer: a2, mask: a3 as u32 }
    } else if nr == SYS_SIGRETURN {
        Syscall::Sigreturn
    } else if nr == SYS_SIGPROCMASK {
        Syscall::Sigprocmask { how: a0 as i32, set: a1 as u32, oldset_va: a2 }
    } else if nr == SYS_DUP2 {
        Syscall::Dup2 { oldfd: a0 as i32, newfd: a1 as i32 }
    } else if nr == SYS_GETCWD {
        Syscall::Getcwd { buf_va: a0, len: a1 }
    } else if nr == SYS_RENAME {
        Syscall::Rename { old_va: a0, new_va: a1 }
    } else if nr == SYS_WAITPID {
        Syscall::Waitpid { pid: a0 as i32, status_va: a1, options: a2 as i32 }
    } else if nr == SYS_PAUSE {
        Syscall::Pause
    } else if nr == SYS_ALARM {
        Syscall::Alarm { secs: a0 as u32 }
    } else if nr == SYS_CLOCK_GETTIME {
        Syscall::ClockGettime { clk: a0 as i32, ts_va: a1 }
    } else if nr == SYS_GETDENTS {
        Syscall::Getdents { fd: a0 as i32, buf_va: a1, len: a2 }
    } else {
        Syscall::Unknown
    }
}

/// What each system call number means and where its arguments come
/// from: the call numbers of the user ABI, and each argument taken from
/// the argument registers `a0`, `a1`, `a2`, `a3` in the order of the
/// call's parameters (`read(fd, buf, len)`: fd from `a0`, the buffer
/// from `a1`, the length from `a2`), narrowed to the parameter's width.
pub proof fn law_syscall_arguments(a0: u64, a1: u64, a2: u64, a3: u64)
    ensures
        syscall_of(1, a0, a1, a2, a3) == Syscall::Fork,
        syscall_of(2, a0, a1, a2, a3) == (Syscall::Exit { code: a0 as i32 }),
        syscall_of(3, a0, a1, a2, a3) == (Syscall::Wait { status_va: a0 }),
        syscall_of(4, a0, a1, a2, a3) == (Syscall::Pipe { pipefd_va: a0 }),
        syscall_of(5, a0, a1, a2, a3) == (Syscall::Read { fd: a0 as i32, buf_va: a1, len: a2 }),
        syscall_of(6, a0, a1, a2, a3) == (Syscall::Kill { pid: a0 as i32, sig: a1 as i32 }),
        syscall_of(7, a0, a1, a2, a3) == (Syscall::Exec { path_va: a0, argv_va: a1 }),
        syscall_of(8, a0, a1, a2, a3) == (Syscall::Fstat { fd: a0 as i32, stat_va: a1 }),
        syscall_of(9, a0, a1, a2, a3) == (Syscall::Chdir { path_va: a0 }),
        syscall_of(10, a0, a1, a2, a3) == (Syscall::Dup { fd: a0 as i32 }),
        syscall_of(11, a0, a1, a2, a3) == Syscall::Getpid,
        syscall_of(12, a0, a1, a2, a3) == (Syscall::Sbrk { n: a0 as i32 as i64, lazy: a1 as i32 as i64 }),
        syscall_of(13, a0, a1, a2, a3) == (Syscall::Sleep { ticks: a0 }),
        syscall_of(14, a0, a1, a2, a3) == Syscall::Uptime,
        syscall_of(15, a0, a1, a2, a3) == (Syscall::Open { path_va: a0, flags: a1 as u32 }),
        syscall_of(16, a0, a1, a2, a3) == (Syscall::Write { fd: a0 as i32, buf_va: a1, len: a2 }),
        syscall_of(17, a0, a1, a2, a3) == (Syscall::Mknod { path_va: a0, major: a1 as u16, minor: a2 as u16 }),
        syscall_of(18, a0, a1, a2, a3) == (Syscall::Unlink { path_va: a0 }),
        syscall_of(19, a0, a1, a2, a3) == (Syscall::Link { old_va: a0, new_va: a1 }),
        syscall_of(20, a0, a1, a2, a3) == (Syscall::Mkdir { path_va: a0 }),
        syscall_of(21, a0, a1, a2, a3) == (Syscall::Close { fd: a0 as i32 }),
        syscall_of(22, a0, a1, a2, a3) == (Syscall::Lseek { fd: a0 as i32, offset: a1 as i64, whence: a2 as i32 }),
        syscall_of(23, a0, a1, a2, a3) == (Syscall::Pread { fd: a0 as i32, buf_va: a1, len: a2, offset: a3 as i64 }),
        syscall_of(24, a0, a1, a2, a3) == (Syscall::Pwrite { fd: a0 as i32, buf_va: a1, len: a2, offset: a3 as i64 }),
        syscall_of(25, a0, a1, a2, a3) == (Syscall::Stat { path_va: a0, stat_va: a1 }),
        syscall_of(26, a0, a1, a2, a3) == (Syscall::Chmod { path_va: a0, mode: ((a1 as u32) & 0o7777) as u16 }),
        syscall_of(27, a0, a1, a2, a3) == (Syscall::Chown { path_va: a0, uid: a1 as u16, gid: a2 as u16 }),
        syscall_of(28, a0, a1, a2, a3) == Syscall::Getuid,
        syscall_of(29, a0, a1, a2, a3) == Syscall::Getgid,
        syscall_of(30, a0, a1, a2, a3) == (Syscall::Setuid { new_uid: a0 as u32 }),
        syscall_of(31, a0, a1, a2, a3) == (Syscall::Setgid { new_gid: a0 as u32 }),
        syscall_of(32, a0, a1, a2, a3) == Syscall::Getuid,
        syscall_of(33, a0, a1, a2, a3) == Syscall::Getgid,
        syscall_of(34, a0, a1, a2, a3) == (Syscall::Umask { mask: (a0 as u32) & 0o777 }),
        syscall_of(35, a0, a1, a2, a3) == (Syscall::Fcntl { fd: a0 as i32, cmd: a1 as i32, arg: a2 as i64 }),
        syscall_of(36, a0, a1, a2, a3) == (Syscall::Ftruncate { fd: a0 as i32, length: a1 as i64 }),
        syscall_of(37, a0, a1, a2, a3) == (Syscall::Truncate { path_va: a0, length: a1 as i64 }),
        syscall_of(38, a0, a1, a2, a3) == (Syscall::Sigaction { signum: a0 as i32, handler: a1, restorer: a2, mask: a3 as u32 }),
        syscall_of(39, a0, a1, a2, a3) == Syscall::Sigreturn,
        syscall_of(40, a0, a1, a2, a3) == (Syscall::Sigprocmask { how: a0 as i32, set: a1 as u32, oldset_va: a2 }),
        syscall_of(41, a0, a1, a2, a3) == (Syscall::Dup2 { oldfd: a0 as i32, newfd: a1 as i32 }),
        syscall_of(42, a0, a1, a2, a3) == (Syscall::Getcwd { buf_va: a0, len: a1 }),
        syscall_of(43, a0, a1, a2, a3) == (Syscall::Rename { old_va: a0, new_va: a1 }),
        syscall_of(44, a0, a1, a2, a3) == (Syscall::Waitpid { pid: a0 as i32, status_va: a1, options: a2 as i32 }),
        syscall_of(45, a0, a1, a2, a3) == Syscall::Pause,
        syscall_of(46, a0, a1, a2, a3) == (Syscall::Alarm { secs: a0 as u32 }),
        syscall_of(47, a0, a1, a2, a3) == (Syscall::ClockGettime { clk: a0 as i32, ts_va: a1 }),
        syscall_of(48, a0, a1, a2, a3) == (Syscall::Getdents { fd: a0 as i32, buf_va: a1, len: a2 }),
        syscall_of(0, a0, a1, a2, a3) == Syscall::Unknown,
        syscall_of(49, a0, a1, a2, a3) == Syscall::Unknown,
{
}

/// A call number outside the ABI decodes to `Unknown`, whatever the
/// registers hold.
pub proof fn law_unknown_syscalls(nr: u64, a0: u64, a1: u64, a2: u64, a3: u64)
    requires
        nr == 0 || nr > 48,
    ensures
        syscall_of(nr, a0, a1, a2, a3) == Syscall::Unknown,
{
}

/// Decodes the system call `nr` with the first four argument
/// registers.
pub fn decode_syscall(nr: u64, a0: u64, a1: u64, a2: u64, a3: u64) -> (r: Syscall)
    ensures
        r == syscall_of(nr, a0, a1, a2, a3),
{
    if nr == SYS_FORK {
        Syscall::Fork
    } else if nr == SYS_EXIT {
        Syscall::Exit { code: a0 as i32 }
    } else if nr == SYS_WAIT {
        Syscall::Wait { status_va: a0 }
    } else if nr == SYS_WRITE {
        Syscall::Write { fd: a0 as i32, buf_va: a1, len: a2 }
    } else if nr == SYS_READ {
        Syscall::Read { fd: a0 as i32, buf_va: a1, len: a2 }
    } else if nr == SYS_SLEEP {
        Syscall::Sleep { ticks: a0 }
    } else if nr == SYS_EXEC {
        Syscall::Exec { path_va: a0, argv_va: a1 }
    } else if nr == SYS_PIPE {
        Syscall::Pipe { pipefd_va: a0 }
    } else if nr == SYS_CLOSE {
        Syscall::Close { fd: a0 as i32 }
    } else if nr == SYS_DUP {
        Syscall::Dup { fd: a0 as i32 }
    } else if nr == SYS_OPEN {
        Syscall::Open { path_va: a0, flags: a1 as u32 }
    } else if nr == SYS_FSTAT {
        Syscall::Fstat { fd: a0 as i32, stat_va: a1 }
    } else if nr == SYS_GETPID {
        Syscall::Getpid
    } else if nr == SYS_UPTIME {
        Syscall::Uptime
    } else if nr == SYS_KILL {
        Syscall::Kill { pid: a0 as i32, sig: a1 as i32 }
    } else if nr == SYS_SBRK {
        Syscall::Sbrk { n: a0 as i32 as i64, lazy: a1 as i32 as i64 }
    } else if nr == SYS_MKDIR {
        Syscall::Mkdir { path_va: a0 }
    } else if nr == SYS_MKNOD {
        Syscall::Mknod { path_va: a0, major: a1 as u16, minor: a2 as u16 }
    } else if nr == SYS_UNLINK {
        Syscall::Unlink { path_va: a0 }
    } else if nr == SYS_CHDIR {
        Syscall::Chdir { path_va: a0 }
    } else if nr == SYS_LINK {
        Syscall::Link { old_va: a0, new_va: a1 }
    } else if nr == SYS_LSEEK {
        Syscall::Lseek { fd: a0 as i32, offset: a1 as i64, whence: a2 as i32 }
    } else if nr == SYS_PREAD {
        Syscall::Pread { fd: a0 as i32, buf_va: a1, len: a2, offset: a3 as i64 }
    } else if nr == SYS_PWRITE {
        Syscall::Pwrite { fd: a0 as i32, buf_va: a1, len: a2, offset: a3 as i64 }
    } else if nr == SYS_STAT {
        Syscall::Stat { path_va: a0, stat_va: a1 }
    } else if nr == SYS_CHMOD {
        Syscall::Chmod { path_va: a0, mode: ((a1 as u32) & 0o7777) as u16 }
    } else if nr == SYS_CHOWN {
        Syscall::Chown { path_va: a0, uid: a1 as u16, gid: a2 as u16 }
    } else if nr == SYS_GETUID {
        Syscall::Getuid
    } else if nr == SYS_GETEUID {
        Syscall::Getuid
    } else if nr == SYS_GETGID {
        Syscall::Getgid
    } else if nr == SYS_GETEGID {
        Syscall::Getgid
    } else if nr == SYS_SETUID {
        Syscall::Setuid { new_uid: a0 as u32 }
    } else if nr == SYS_SETGID {
        Syscall::Setgid { new_gid: a0 as u32 }
    } else if nr == SYS_UMASK {
        Syscall::Umask { mask: (a0 as u32) & 0o777 }
    } else if nr == SYS_FCNTL {
        Syscall::Fcntl { fd: a0 as i32, cmd: a1 as i32, arg: a2 as i64 }
    } else if nr == SYS_FTRUNCATE {
        Syscall::Ftruncate { fd: a0 as i32, length: a1 as i64 }
    } else if nr == SYS_TRUNCATE {
        Syscall::Truncate { path_va: a0, length: a1 as i64 }
    } else if nr == SYS_SIGACTION {
        Syscall::Sigaction { signum: a0 as i32, handler: a1, restorer: a2, mask: a3 as u32 }
    } else if nr == SYS_SIGRETURN {
        Syscall::Sigreturn
    } else if nr == SYS_SIGPROCMASK {
        Syscall::Sigprocmask { how: a0 as i32, set: a1 as u32, oldset_va: a2 }
    } else if nr == SYS_DUP2 {
        Syscall::Dup2 { oldfd: a0 as i32, newfd: a1 as i32 }
    } else if nr == SYS_GETCWD {
        Syscall::Getcwd { buf_va: a0, len: a1 }
    } else if nr == SYS_RENAME {
        Syscall::Rename { old_va: a0, new_va: a1 }
    } else if nr == SYS_WAITPID {
        Syscall::Waitpid { pid: a0 as i32, status_va: a1, options: a2 as i32 }
    } else if nr == SYS_PAUSE {
        Syscall::Pause
    } else if nr == SYS_ALARM {
        Syscall::Alarm { secs: a0 as u32 }
    } else if nr == SYS_CLOCK_GETTIME {
        Syscall::ClockGettime { clk: a0 as i32, ts_va: a1 }
    } else if nr == SYS_GETDENTS {
        Syscall::Getdents { fd: a0 as i32, buf_va: a1, len: a2 }
    } else {
        Syscall::Unknown
    }
}


/// Process-table shape the fd and signal calls rely on.
pub open spec fn proc_ok(p: &Proc) -> bool {
    p.files@.len() == NOFILE && p.sig_actions@.len() == 32
}

/// `dup2(oldfd, newfd)`: `newfd` becomes another descriptor for
/// `oldfd`'s open file (whatever it held is closed); `oldfd == newfd`
/// is a no-op. Returns `newfd`, or -1.
pub fn sys_dup2(proc: &mut Proc, oldfd: i32, newfd: i32) -> (r: i64)
    requires
        proc_ok(old(proc)),
    ensures
        proc_ok(final(proc)),
        final(proc).pagetable == old(proc).pagetable,
        oldfd < 0 || newfd < 0 || fd_slot(old(proc).files@, oldfd) is None ==> r == -1 && final(proc).files@
            == old(proc).files@,
        oldfd >= 0 && newfd >= 0 && fd_slot(old(proc).files@, oldfd) is Some ==> {
            if oldfd == newfd {
                r == newfd && final(proc).files@ == old(proc).files@
            } else if newfd >= NOFILE {
                r == -1 && final(proc).files@ == old(proc).files@
            } else {
                r == newfd && final(proc).files@ == old(proc).files@.update(
                    newfd as int,
                    Some(FdEntry { file: fd_slot(old(proc).files@, oldfd)->0.file, cloexec: false, nonblock: false }),
                )
            }
        },
{
    if oldfd < 0 || newfd < 0 {
        return -1;
    }
    let file = match proc.get_file(oldfd) {
        None => return -1,
        Some(f) => f,
    };
    if oldfd == newfd {
        return newfd as i64;
    }
    if newfd as usize >= NOFILE {
        return -1;
    }
    proc.files.set(newfd as usize, Some(FdEntry::new(file)));
    newfd as i64
}

/// `fcntl(fd, cmd, arg)` for the supported commands. `file_append`
/// tells whether `fd`'s open file was opened for appending.
pub fn sys_fcntl(proc: &mut Proc, fd: i32, cmd: i32, arg: i64, file_append: bool) -> (r: i64)
    requires
        proc_ok(old(proc)),
    ensures
        proc_ok(final(proc)),
        final(proc).pagetable == old(proc).pagetable,
        fd_slot(old(proc).files@, fd) is None ==> r == -1 && final(proc).files@ == old(proc).files@,
        fd_slot(old(proc).files@, fd) matches Some(e) ==> {
            if cmd == F_DUPFD || cmd == F_DUPFD_CLOEXEC {
                let ne = FdEntry { cloexec: cmd == F_DUPFD_CLOEXEC, ..e };
                ||| r == -1 && final(proc).files@ == old(proc).files@ && forall|j: int|
                    (arg as i32 as int) <= j < NOFILE && 0 <= j ==> old(proc).files@[j] is Some
                ||| (arg as i32) <= r < NOFILE && 0 <= r && old(proc).files@[r as int] is None && (forall|j: int|
                    (arg as i32 as int) <= j < r && 0 <= j ==> old(proc).files@[j] is Some)
                    && final(proc).files@ == old(proc).files@.update(r as int, Some(ne))
            } else if cmd == F_GETFD {
                r == (if e.cloexec {
                    1i64
                } else {
                    0i64
                }) && final(proc).files@ == old(proc).files@
            } else if cmd == F_SETFD {
                r == 0 && final(proc).files@ == old(proc).files@.update(
                    fd as int,
                    Some(FdEntry { cloexec: arg & 1 != 0, ..e }),
                )
            } else if cmd == F_GETFL {
                r == (if file_append {
                    O_APPEND as i64
                } else {
                    0i64
                }) | (if e.nonblock {
                    O_NONBLOCK as i64
                } else {
                    0i64
                }) && final(proc).files@ == old(proc).files@
            } else if cmd == F_SETFL {
                r == 0 && final(proc).files@ == old(proc).files@.update(
                    fd as int,
                    Some(FdEntry { nonblock: arg & 0x8000 != 0, ..e }),
                )
            } else {
                r == -1 && final(proc).files@ == old(proc).files@
            }
        },
{
    let e = match proc.get_fd_entry(fd) {
        None => return -1,
        Some(e) => e,
    };
    if cmd == F_DUPFD || cmd == F_DUPFD_CLOEXEC {
        let ne = FdEntry { cloexec: cmd == F_DUPFD_CLOEXEC, ..e };
        match proc.alloc_fd_entry_from(ne, arg as i32) {
            Some(n) => n as i64,
            None => -1,
        }
    } else if cmd == F_GETFD {
        if e.cloexec {
            1
        } else {
            0
        }
    } else if cmd == F_SETFD {
        if proc.set_fd_cloexec(fd, arg & 1 != 0) {
            0
        } else {
            -1
        }
    } else if cmd == F_GETFL {
        let a: i64 = if file_append {
            O_APPEND as i64
        } else {
            0
        };
        let b: i64 = if e.nonblock {
            O_NONBLOCK as i64
        } else {
            0
        };
        a | b
    } else if cmd == F_SETFL {
        if proc.set_fd_nonblock(fd, arg & 0x8000 != 0) {
            0
        } else {
            -1
        }
    } else {
        -1
    }
}

/// `sigaction(signum, ...)`: installs the disposition and returns the
/// previous handler; -1 for a bad signal or SIGKILL / SIGSTOP.
pub fn sys_sigaction(proc: &mut Proc, signum: i32, handler: u64, restorer: u64, mask: u32) -> (r: i64)
    requires
        proc_ok(old(proc)),
    ensures
        proc_ok(final(proc)),
        final(proc).files == old(proc).files,
        signum <= 0 || signum >= 32 || signum == SIGKILL || signum == SIGSTOP ==> r == -1
            && final(proc).sig_actions@ == old(proc).sig_actions@,
        0 < signum < 32 && signum != SIGKILL && signum != SIGSTOP ==> r == old(proc).sig_actions@[signum as int].handler as i64
            && final(proc).sig_actions@ == old(proc).sig_actions@.update(
            signum as int,
            SigAction { handler, restorer, mask },
        ),
{
    if signum <= 0 || signum >= 32 {
        return -1;
    }
    if signum == SIGKILL || signum == SIGSTOP {
        return -1;
    }
    let prev = proc.sig_actions[signum as usize].handler;
    proc.sig_actions.set(signum as usize, SigAction { handler, restorer, mask });
    prev as i64
}

/// Bits of SIGKILL and SIGSTOP, which can never be blocked.
pub open spec fn unblockable() -> u32 {
    (1u32 << 9u32) | (1u32 << 19u32)
}

/// The set a `sigprocmask` call applies is the requested one with
/// exactly SIGKILL's bit (9) and SIGSTOP's bit (19) cleared.
pub proof fn law_unblockable_bits(set: u32, b: u32)
    requires
        b < 32,
    ensures
        ((set & !unblockable()) >> b) & 1 == (if b == 9 || b == 19 {
            0
        } else {
            (set >> b) & 1
        }),
{
    assert(((set & !((1u32 << 9u32) | (1u32 << 19u32))) >> b) & 1 == (if b == 9 || b == 19 {
        0
    } else {
        (set >> b) & 1
    })) by (bit_vector)
        requires
            b < 32,
    ;
}

/// `sigprocmask(how, set)`: the new blocked mask, never including
/// SIGKILL or SIGSTOP. Returns the result and the previous mask (for
/// the caller to copy out).
pub fn sys_sigprocmask(proc: &mut Proc, how: i32, set: u32) -> (r: (i64, u32))
    ensures
        final(proc).files == old(proc).files,
        r.1 == old(proc).sig_blocked,
        ({
            let s = set & !unblockable();
            let prev = old(proc).sig_blocked;
            if how == SIG_BLOCK {
                r.0 == 0 && final(proc).sig_blocked == prev | s
            } else if how == SIG_UNBLOCK {
                r.0 == 0 && final(proc).sig_blocked == prev & !s
            } else if how == SIG_SETMASK {
                r.0 == 0 && final(proc).sig_blocked == s
            } else {
                r.0 == -1 && final(proc).sig_blocked == prev
            }
        }),
{
    let s: u32 = set & !((1u32 << 9u32) | (1u32 << 19u32));
    let prev: u32 = proc.sig_blocked;
    let new: u32 = if how == SIG_BLOCK {
        prev | s
    } else if how == SIG_UNBLOCK {
        prev & !s
    } else if how == SIG_SETMASK {
        s
    } else {
        return (-1, prev);
    };
    proc.sig_blocked = new;
    (0, prev)
}

/// What `kill(pid, sig)` does to its target.
#[derive(Clone, Copy, Debug, PartialEq, Eq, Structural)]
pub enum SignalEffect {
    /// Nothing changes.
    Unchanged,
    /// The target is marked killed and woken.
    Killed,
    /// The signal is queued for the target's handler and it is woken.
    Queued,
}

/// A process `p` after a defined signal `sig` reaches it, and what the
/// signal did: SIGKILL, or a default-fatal signal left at its default,
/// marks it killed; SIGSTOP, a default-ignored signal at its default, or
/// an ignored one changes nothing; a signal with a handler is queued.
pub open spec fn after_signal(p: Proc, sig: i32) -> (Proc, SignalEffect) {
    let h = p.sig_actions@[sig as int].handler;
    if sig == SIGKILL || (sig != SIGSTOP && h == SIG_DFL && kills_by_default(sig)) {
        (Proc { killed: true, ..p }, SignalEffect::Killed)
    } else if sig == SIGSTOP || h == SIG_DFL || h == SIG_IGN {
        (p, SignalEffect::Unchanged)
    } else {
        (Proc { sig_pending: p.sig_pending | (1u32 << (sig as u32)), ..p }, SignalEffect::Queued)
    }
}

/// What a delivered signal does to its target `p`, by signal number and
/// the target's handler for it: 9 (KILL) always marks it killed; a
/// default-fatal signal (1-4, 6, 10-15) left at its default marks it
/// killed; 17-19 (CHLD, CONT, STOP) at their default, and any ignored
/// signal other than KILL, change nothing; a signal other than KILL or
/// STOP with a handler installed sets bit `sig` of the pending mask.
/// Nothing else about the process changes.
pub proof fn law_signal_effects(p: Proc, sig: i32)
    requires
        1 <= sig <= 31,
    ensures
        ({
            let h = p.sig_actions@[sig as int].handler;
            let (q, e) = after_signal(p, sig);
            &&& sig == 9 ==> q == (Proc { killed: true, ..p }) && e == SignalEffect::Killed
            &&& (1 <= sig <= 4 || sig == 6 || 10 <= sig <= 15) && h == 0 ==> q == (Proc { killed: true, ..p }) && e
                == SignalEffect::Killed
            &&& 17 <= sig <= 19 && h == 0 ==> q == p && e == SignalEffect::Unchanged
            &&& sig != 9 && h == 1 ==> q == p && e == SignalEffect::Unchanged
            &&& sig != 9 && sig != 19 && h > 1 ==> q == (Proc { sig_pending: p.sig_pending | (1u32 << (sig as u32)), ..p })
                && e == SignalEffect::Queued
        }),
{
    crate::uapi::law_signal_numbers(sig);
}

/// Effect of delivering a defined signal `sig` to `target`, applied.
pub fn deliver_signal(target: &mut Proc, sig: i32) -> (r: SignalEffect)
    requires
        proc_ok(old(target)),
        sig_defined(sig),
    ensures
        (*final(target), r) == after_signal(*old(target), sig),
        final(target).files == old(target).files,
        final(target).sig_actions == old(target).sig_actions,
        ({
            let h = old(target).sig_actions@[sig as int].handler;
            if sig == SIGKILL || (sig != SIGSTOP && h == SIG_DFL && kills_by_default(sig)) {
                r == SignalEffect::Killed && final(target).killed && final(target).sig_pending == old(
                    target,
                ).sig_pending
            } else if sig == SIGSTOP || h == SIG_DFL || h == SIG_IGN {
                r == SignalEffect::Unchanged && final(target).killed == old(target).killed && final(target).sig_pending
                    == old(target).sig_pending
            } else {
                r == SignalEffect::Queued && final(target).killed == old(target).killed && final(target).sig_pending
                    == old(target).sig_pending | (1u32 << (sig as u32))
            }
        }),
{
    if sig == SIGKILL {
        target.killed = true;
        return SignalEffect::Killed;
    }
    if sig == SIGSTOP {
        return SignalEffect::Unchanged;
    }
    let h = target.sig_actions[sig as usize].handler;
    if h == SIG_DFL {
        if crate::uapi::sig_default_kills(sig) {
            target.killed = true;
            SignalEffect::Killed
        } else {
            SignalEffect::Unchanged
        }
    } else if h == SIG_IGN {
        SignalEffect::Unchanged
    } else {
        target.sig_pending = target.sig_pending | (1u32 << (sig as u32));
        SignalEffect::Queued
    }
}

/// Index of the first process of `procs` with `pid`, if any.
pub open spec fn proc_index(procs: Seq<Proc>, pid: int) -> Option<int> {
    if exists|i: int| 0 <= i < procs.len() && procs[i].pid == pid {
        Some(choose|i: int| 0 <= i < procs.len() && procs[i].pid == pid && forall|j: int| 0 <= j < i ==> procs[j].pid != pid)
    } else {
        None
    }
}

/// `kill(pid, sig)` over the process table `procs`: -1 for a bad pid or
/// signal or when no process has `pid`; 0 for the existence probe
/// `sig == 0`, which delivers nothing; -1 for a signal number in 1..31
/// that this kernel does not define; otherwise 0, with the signal
/// delivered to that process. Returns the effect for the caller to wake the target.
pub fn sys_kill(procs: &mut Vec<Proc>, pid: i32, sig: i32) -> (r: (i64, SignalEffect))
    requires
        forall|i: int| 0 <= i < old(procs)@.len() ==> #[trigger] proc_ok(&old(procs)@[i]),
    ensures
        ({
            let idx = proc_index(old(procs)@, pid as int);
            if pid <= 0 || sig < 0 || sig > 31 || idx is None {
                r == (-1i64, SignalEffect::Unchanged) && final(procs)@ == old(procs)@
            } else if sig == 0 {
                r == (0i64, SignalEffect::Unchanged) && final(procs)@ == old(procs)@
            } else if !sig_defined(sig) {
                r == (-1i64, SignalEffect::Unchanged) && final(procs)@ == old(procs)@
            } else {
                let (q, e) = after_signal(old(procs)@[idx->0], sig);
                r == (0i64, e) && final(procs)@ == old(procs)@.update(idx->0, q)
            }
        }),
        forall|i: int| 0 <= i < final(procs)@.len() ==> #[trigger] proc_ok(&final(procs)@[i]),
{
    let n: usize = procs.len();
    let mut i: usize = 0;
    if pid > 0 {
        while i < n
            invariant
                n == procs@.len(),
                procs@ == old(procs)@,
                pid > 0,
                i <= n,
                forall|j: int| 0 <= j < i ==> procs@[j].pid != pid as int,
            ensures
                procs@ == old(procs)@,
                i <= n,
                forall|j: int| 0 <= j < i ==> procs@[j].pid != pid as int,
                i < n ==> procs@[i as int].pid == pid as int,
            decreases n - i,
        {
            if procs[i].pid == pid as u64 {
                break;
            }
            i = i + 1;
        }
    }
    proof {
        if pid > 0 && i < n {
            assert(procs@[i as int].pid == pid as int);
            let k = proc_index(old(procs)@, pid as int)->0;
            assert(0 <= k < procs@.len() && procs@[k].pid == pid && forall|j: int| 0 <= j < k ==> procs@[j].pid != pid);
            if k < i {
            } else if k > i {
                assert(procs@[i as int].pid != pid);
            }
            assert(k == i);
        }
        if pid > 0 && i >= n {
            assert(proc_index(old(procs)@, pid as int) is None);
        }
    }
    match kill_precheck(pid, sig, pid > 0 && i < n) {
        Some(v) => (v, SignalEffect::Unchanged),
        None => {
            let mut t = procs.remove(i);
            proof {
                assert(proc_ok(&old(procs)@[i as int]));
            }
            let e = deliver_signal(&mut t, sig);
            procs.insert(i, t);
            proof {
                assert(procs@ =~= old(procs)@.update(i as int, t));
                assert forall|j: int| 0 <= j < procs@.len() implies #[trigger] proc_ok(&procs@[j]) by {
                    if j != i {
                        assert(procs@[j] == old(procs)@[j]);
                    }
                }
            }
            (0, e)
        },
    }
}

/// An alarm for `target` tagged `generation` comes due; `current` is
/// the process's alarm generation now. A stale alarm (rescheduled or
/// cancelled since) does nothing and returns false; a current one
/// delivers SIGALRM and returns true (the target is to be woken).
pub fn fire_alarm(target: &mut Proc, generation: u32, current: u32) -> (r: bool)
    requires
        proc_ok(old(target)),
    ensures
        r == (generation == current),
        !r ==> *final(target) == *old(target),
        r ==> *final(target) == after_signal(*old(target), SIGALRM).0,
{
    if !crate::time::alarm_current(generation, current) {
        return false;
    }
    deliver_signal(target, SIGALRM);
    true
}

/// Argument check of `kill(pid, sig)`: -1 for a bad pid or signal,
/// -1 when no process has `pid`, 0 for the existence probe `sig == 0`,
/// -1 for a signal number this kernel does not define; `None` when the
/// signal is to be delivered.
pub fn kill_precheck(pid: i32, sig: i32, target_exists: bool) -> (r: Option<i64>)
    ensures
        pid <= 0 || sig < 0 || sig > 31 ==> r == Some(-1i64),
        pid > 0 && 0 <= sig <= 31 && !target_exists ==> r == Some(-1i64),
        pid > 0 && sig == 0 && target_exists ==> r == Some(0i64),
        pid > 0 && 0 < sig <= 31 && target_exists && !sig_defined(sig) ==> r == Some(-1i64),
        pid > 0 && 0 < sig <= 31 && target_exists && sig_defined(sig) ==> r is None,
{
    if pid <= 0 {
        return Some(-1);
    }
    if sig < 0 || sig > 31 {
        return Some(-1);
    }
    if !target_exists {
        return Some(-1);
    }
    if sig == 0 {
        return Some(0);
    }
    if !crate::uapi::sig_known(sig) {
        return Some(-1);
    }
    None
}

/// `setuid(uid)`: only root may change its uid.
pub fn sys_setuid(proc: &mut Proc, new_uid: u32) -> (r: i64)
    ensures
        old(proc).uid != 0 ==> r == -1 && final(proc).uid == old(proc).uid,
        old(proc).uid == 0 ==> r == 0 && final(proc).uid == new_uid,
        final(proc).gid == old(proc).gid,
        final(proc).files == old(proc).files,
{
    if proc.uid != 0 {
        -1
    } else {
        proc.uid = new_uid;
        0
    }
}

/// `setgid(gid)`: only root may change its gid.
pub fn sys_setgid(proc: &mut Proc, new_gid: u32) -> (r: i64)
    ensures
        old(proc).uid != 0 ==> r == -1 && final(proc).gid == old(proc).gid,
        old(proc).uid == 0 ==> r == 0 && final(proc).gid == new_gid,
        final(proc).uid == old(proc).uid,
        final(proc).files == old(proc).files,
{
    if proc.uid != 0 {
        -1
    } else {
        proc.gid = new_gid;
        0
    }
}

/// `umask(mask)`: sets the mask (already cut to its low 9 bits) and
/// returns the previous one.
pub fn sys_umask(proc: &mut Proc, mask: u32) -> (r: i64)
    ensures
        r == old(proc).umask,
        final(proc).umask == mask,
        final(proc).files == old(proc).files,
{
    let prev = proc.umask;
    proc.umask = mask;
    prev as i64
}

/// New offset for `lseek`: from the start, the current offset or the
/// end of file; -1 for an unknown `whence` or a result outside
/// `0..=u32::MAX`.
pub fn lseek_target(whence: i32, cur: u32, end: u32, offset: i64) -> (r: i64)
    ensures
        ({
            let base: int = if whence == SEEK_SET {
                0
            } else if whence == SEEK_CUR {
                cur as int
            } else {
                end as int
            };
            if whence != SEEK_SET && whence != SEEK_CUR && whence != SEEK_END {
                r == -1
            } else if base + offset < 0 || base + offset > u32::MAX {
                r == -1
            } else {
                r == base + offset
            }
        }),
{
    let base: i64 = if whence == SEEK_SET {
        0
    } else if whence == SEEK_CUR {
        cur as i64
    } else if whence == SEEK_END {
        end as i64
    } else {
        return -1;
    };
    if offset < -base || offset > 0xffff_ffff - base {
        return -1;
    }
    base + offset
}

/// Access an `open` with `flags` asks for.
#[derive(Clone, Copy, Debug, PartialEq, Eq, Structural)]
pub struct OpenMode {
    pub readable: bool,
    pub writable: bool,
    pub append: bool,
    pub cloexec: bool,
    pub nonblock: bool,
    pub create: bool,
    pub trunc: bool,
}

/// Decodes `open` flags; `None` if any unknown bit is set.
pub fn open_mode(flags: u32) -> (r: Option<OpenMode>)
    ensures
        flags & !(O_RDONLY | O_WRONLY | O_RDWR | O_CREATE | O_TRUNC | O_APPEND | O_CLOEXEC | O_NONBLOCK) != 0
            ==> r is None,
        flags & !(O_RDONLY | O_WRONLY | O_RDWR | O_CREATE | O_TRUNC | O_APPEND | O_CLOEXEC | O_NONBLOCK) == 0
            ==> r == Some(
            OpenMode {
                readable: flags & O_WRONLY == 0,
                writable: flags & (O_WRONLY | O_RDWR) != 0,
                append: flags & O_APPEND != 0,
                cloexec: flags & O_CLOEXEC != 0,
                nonblock: flags & O_NONBLOCK != 0,
                create: flags & O_CREATE != 0,
                trunc: flags & O_TRUNC != 0,
            },
        ),
{
    let allowed: u32 = O_RDONLY | O_WRONLY | O_RDWR | O_CREATE | O_TRUNC | O_APPEND | O_CLOEXEC | O_NONBLOCK;
    if flags & !allowed != 0 {
        return None;
    }
    Some(
        OpenMode {
            readable: flags & O_WRONLY == 0,
            writable: flags & (O_WRONLY | O_RDWR) != 0,
            append: flags & O_APPEND != 0,
            cloexec: flags & O_CLOEXEC != 0,
            nonblock: flags & O_NONBLOCK != 0,
            create: flags & O_CREATE != 0,
            trunc: flags & O_TRUNC != 0,
        },
    )
}

/// `open`'s checks on the inode it found or created (type `typ`, owner
/// `iuid:igid`, mode bits `imode`), for a caller `uid:gid`: `None` if the
/// open fails — a free inode, a directory opened for writing, or (for an
/// inode it did not just create) access refused — else whether to
/// truncate it first (`O_TRUNC` on a regular file).
pub fn open_inode_check(m: OpenMode, typ: u16, uid: u32, gid: u32, iuid: u16, igid: u16, imode: u16) -> (r: Option<bool>)
    ensures
        r == (if typ == 0 {
            None
        } else if typ == crate::layout::T_DIR && m.writable {
            None
        } else if !m.create && !access_ok(uid, gid, iuid, igid, imode, m.readable, m.writable) {
            None
        } else {
            Some(m.trunc && typ == crate::layout::T_FILE)
        }),
{
    if typ == 0 {
        return None;
    }
    if typ == crate::layout::T_DIR && m.writable {
        return None;
    }
    if !m.create && !check_access(uid, gid, iuid, igid, imode, m.readable, m.writable) {
        return None;
    }
    Some(m.trunc && typ == crate::layout::T_FILE)
}

/// What a `waitpid` poll finds.
#[derive(Clone, Copy, Debug, PartialEq, Eq, Structural)]
pub enum WaitOutcome {
    /// Reap the child at this index of the children list.
    Reaped(usize),
    NoChildren,
    WouldBlock,
    Killed,
    /// Keep waiting.
    Pending,
}

/// One poll of `waitpid`: `children` lists `(pid, exited)`; `filter`
/// names a pid to wait for, if any.
pub fn wait_poll(children: &Vec<(u64, bool)>, filter: Option<u64>, nonblock: bool, killed: bool) -> (r: WaitOutcome)
    ensures
        killed ==> r == WaitOutcome::Killed,
        !killed && children@.len() == 0 ==> r == WaitOutcome::NoChildren,
        !killed && children@.len() > 0 ==> {
            let matches = |c: (u64, bool)| filter matches Some(p) ==> c.0 == p;
            match r {
                WaitOutcome::Reaped(i) => i < children@.len() && matches(children@[i as int]) && children@[i as int].1
                    && forall|j: int| 0 <= j < i ==> !(matches(#[trigger] children@[j]) && children@[j].1),
                WaitOutcome::NoChildren => filter is Some && forall|j: int|
                    0 <= j < children@.len() ==> !matches(#[trigger] children@[j]),
                WaitOutcome::WouldBlock => nonblock && (forall|j: int|
                    0 <= j < children@.len() ==> !(matches(#[trigger] children@[j]) && children@[j].1)) && (filter is None
                    || exists|j: int| 0 <= j < children@.len() && matches(#[trigger] children@[j])),
                WaitOutcome::Pending => !nonblock && (forall|j: int|
                    0 <= j < children@.len() ==> !(matches(#[trigger] children@[j]) && children@[j].1)) && (filter is None
                    || exists|j: int| 0 <= j < children@.len() && matches(#[trigger] children@[j])),
                WaitOutcome::Killed => false,
            }
        },
{
    if killed {
        return WaitOutcome::Killed;
    }
    let n: usize = children.len();
    if n == 0 {
        return WaitOutcome::NoChildren;
    }
    let ghost matches = |c: (u64, bool)| filter matches Some(p) ==> c.0 == p;
    let mut any_match = false;
    let mut i: usize = 0;
    while i < n
        invariant
            n == children@.len(),
            n > 0,
            !killed,
            i <= n,
            matches == (|c: (u64, bool)| filter matches Some(p) ==> c.0 == p),
            forall|j: int| 0 <= j < i ==> !(matches(#[trigger] children@[j]) && children@[j].1),
            any_match == exists|j: int| 0 <= j < i && matches(#[trigger] children@[j]),
        decreases n - i,
    {
        let c = children[i];
        let pid_match = match filter {
            Some(p) => c.0 == p,
            None => true,
        };
        if pid_match {
            any_match = true;
            if c.1 {
                return WaitOutcome::Reaped(i);
            }
        }
        i = i + 1;
    }
    if filter.is_some() && !any_match {
        return WaitOutcome::NoChildren;
    }
    if nonblock {
        return WaitOutcome::WouldBlock;
    }
    WaitOutcome::Pending
}

/// Ticks per second of the time base.
pub const TICKS_PER_SEC: u64 = 10_000_000;

/// `clock_gettime` for clock `clk` at `ticks`: `(seconds, nanoseconds)`,
/// or `None` for a clock other than MONOTONIC (1) or REALTIME (0).
pub fn clock_values(clk: i32, ticks: u64) -> (r: Option<(i64, i64)>)
    ensures
        clk != 0 && clk != 1 ==> r is None,
        clk == 0 || clk == 1 ==> r == Some(
            ((ticks / TICKS_PER_SEC) as i64, ((ticks % TICKS_PER_SEC) * 1_000_000_000 / TICKS_PER_SEC as int) as i64),
        ),
{
    if clk != 0 && clk != 1 {
        return None;
    }
    let sec: u64 = ticks / TICKS_PER_SEC;
    let rem: u64 = ticks % TICKS_PER_SEC;
    proof {
        assert(rem * 1_000_000_000 / 10_000_000 == rem * 100) by (nonlinear_arith)
            requires
                rem < 10_000_000,
        ;
    }
    Some((sec as i64, (rem * 100) as i64))
}

/// Seconds left of an alarm due at `deadline` (0 if none is pending).
pub fn alarm_remaining(deadline: u64, now: u64) -> (r: i64)
    ensures
        deadline > now ==> r == (deadline - now) / crate::riscv::TIMER_INTERVAL as int,
        deadline <= now ==> r == 0,
{
    if deadline > now {
        ((deadline - now) / crate::riscv::TIMER_INTERVAL) as i64
    } else {
        0
    }
}

/// `alarm(seconds)` at time `now` on a process whose alarm is due at
/// `deadline` (0: none) under generation `generation`: the seconds that
/// were left, the new generation (which retires any queued alarm) and
/// the new deadline (0 to cancel). The caller queues an alarm for the
/// new deadline and generation unless it is 0.
pub fn alarm_update(deadline: u64, generation: u32, now: u64, seconds: u32) -> (r: (i64, u32, u64))
    requires
        now + seconds * crate::riscv::TIMER_INTERVAL <= u64::MAX,
    ensures
        r.0 == (if deadline > now {
            (deadline - now) / crate::riscv::TIMER_INTERVAL as int
        } else {
            0
        }),
        r.1 == (if generation == u32::MAX {
            0
        } else {
            generation + 1
        }),
        r.2 == (if seconds == 0 {
            0
        } else {
            now + seconds * crate::riscv::TIMER_INTERVAL
        }),
{
    let prev: i64 = alarm_remaining(deadline, now);
    let next_gen: u32 = generation.wrapping_add(1);
    let new_deadline: u64 = if seconds == 0 {
        0
    } else {
        now + (seconds as u64) * crate::riscv::TIMER_INTERVAL
    };
    (prev, next_gen, new_deadline)
}

/// `pread`/`pwrite` checks before any transfer, given the open file the
/// descriptor names (if any): 0 for an empty transfer, -1 for an offset
/// outside `0..=u32::MAX`, a descriptor that is not an open inode, or
/// one opened without the access asked for; `None` to go on at that
/// offset.
pub fn positional_precheck(len: u64, offset: i64, file: Option<File>, write: bool) -> (r: Option<i64>)
    ensures
        len == 0 ==> r == Some(0i64),
        len != 0 && (offset < 0 || offset > u32::MAX) ==> r == Some(-1i64),
        len != 0 && 0 <= offset <= u32::MAX ==> r == (match file {
            Some(File::Inode { readable, writable, .. }) => if (write && writable) || (!write && readable) {
                None
            } else {
                Some(-1i64)
            },
            _ => Some(-1i64),
        }),
{
    if len == 0 {
        return Some(0);
    }
    if offset < 0 || offset > u32::MAX as i64 {
        return Some(-1);
    }
    match file {
        Some(File::Inode { readable, writable, .. }) => {
            if (write && writable) || (!write && readable) {
                None
            } else {
                Some(-1)
            }
        },
        _ => Some(-1),
    }
}

/// Where a `write` on an inode starts: at the end of the file for a
/// descriptor opened to append, else at the descriptor's offset.
pub fn write_start(append: bool, size: u32, off: u32) -> (r: u32)
    ensures
        r == (if append {
            size
        } else {
            off
        }),
{
    if append {
        size
    } else {
        off
    }
}

/// The descriptor's offset after `n` bytes moved from `cur` (unchanged
/// when nothing moved).
pub fn advance_offset(cur: u32, n: u32) -> (r: u32)
    requires
        cur + n <= u32::MAX,
    ensures
        r == cur + n,
{
    cur + n
}

/// `chmod` on an inode owned by `owner_uid`: only its owner or root
/// may change its mode.
pub fn chmod_permitted(caller_uid: u32, owner_uid: u16) -> (r: bool)
    ensures
        r == (caller_uid == 0 || owner_uid as u32 == caller_uid),
{
    caller_uid == 0 || owner_uid as u32 == caller_uid
}

/// `chown(path, uid, gid)` on an inode owned by `(cur_uid, cur_gid)`:
/// the new owner and group, or `None` (the call fails) unless the
/// caller is root. `u16::MAX` for either leaves that field as it was.
pub fn chown_fields(caller_uid: u32, cur_uid: u16, cur_gid: u16, uid: u16, gid: u16) -> (r: Option<(u16, u16)>)
    ensures
        caller_uid != 0 ==> r is None,
        caller_uid == 0 ==> r == Some(
            (if uid == u16::MAX {
                cur_uid
            } else {
                uid
            }, if gid == u16::MAX {
                cur_gid
            } else {
                gid
            }),
        ),
{
    if caller_uid != 0 {
        return None;
    }
    let u = if uid == u16::MAX {
        cur_uid
    } else {
        uid
    };
    let g = if gid == u16::MAX {
        cur_gid
    } else {
        gid
    };
    Some((u, g))
}

/// A length that `truncate` and `ftruncate` accept: a file size, from
/// 0 to `u32::MAX`.
pub fn truncate_length_ok(length: i64) -> (r: bool)
    ensures
        r == (0 <= length <= u32::MAX),
{
    0 <= length && length <= 0xffff_ffffi64
}

/// Early result of `rename(old, new)` from the last path components
/// alone: -1 if either is `.` or `..`, 0 when both name the same entry
/// of the same directory; `None` to go on.
pub fn rename_precheck(old_name: &[u8], new_name: &[u8], same_dir: bool) -> (r: Option<i64>)
    ensures
        (old_name@ == seq![46u8] || old_name@ == seq![46u8, 46u8] || new_name@ == seq![46u8] || new_name@ == seq![
            46u8,
            46u8,
        ]) ==> r == Some(-1i64),
        !(old_name@ == seq![46u8] || old_name@ == seq![46u8, 46u8] || new_name@ == seq![46u8] || new_name@ == seq![
            46u8,
            46u8,
        ]) ==> r == (if same_dir && old_name@ == new_name@ {
            Some(0i64)
        } else {
            None
        }),
{
    if is_dot_or_dotdot(old_name) || is_dot_or_dotdot(new_name) {
        return Some(-1);
    }
    if same_dir && bytes_equal(old_name, new_name) {
        return Some(0);
    }
    None
}

/// `name` is `.` or `..`.
pub fn is_dot_or_dotdot(name: &[u8]) -> (r: bool)
    ensures
        r == (name@ == seq![46u8] || name@ == seq![46u8, 46u8]),
{
    if name.len() == 1 {
        let r = name[0] == 46;
        proof {
            if r {
                assert(name@ =~= seq![46u8]);
            }
        }
        r
    } else if name.len() == 2 {
        let r = name[0] == 46 && name[1] == 46;
        proof {
            if r {
                assert(name@ =~= seq![46u8, 46u8]);
            }
        }
        r
    } else {
        false
    }
}

/// Byte-wise equality.
pub fn bytes_equal(a: &[u8], b: &[u8]) -> (r: bool)
    ensures
        r == (a@ == b@),
{
    if a.len() != b.len() {
        return false;
    }
    let n: usize = a.len();
    let mut i: usize = 0;
    while i < n
        invariant
            n == a@.len(),
            n == b@.len(),
            i <= n,
            forall|j: int| 0 <= j < i ==> a@[j] == b@[j],
        decreases n - i,
    {
        if a[i] != b[i] {
            return false;
        }
        i = i + 1;
    }
    proof {
        assert(a@ =~= b@);
    }
    true
}

/// `rename` onto a name that may already exist: `target` is the type
/// and link count of the inode it names, if any. `None` when the rename
/// fails (a directory cannot be overwritten); else the target's new link
/// count once its entry is removed (one less, never below 0), or
/// `Some(None)` when there is no target. The new name is then linked to
/// the source and the old name unlinked.
pub fn rename_overwrite(target: Option<(u16, u16)>) -> (r: Option<Option<u16>>)
    ensures
        r == match target {
            None => Some(None),
            Some((typ, nlink)) => if typ == crate::layout::T_DIR {
                None
            } else {
                Some(Some(if nlink == 0 {
                    0u16
                } else {
                    (nlink - 1) as u16
                }))
            },
        },
{
    match target {
        None => Some(None),
        Some((typ, nlink)) => if !rename_target_ok(Some(typ)) {
            None
        } else {
            Some(Some(if nlink == 0 {
                0u16
            } else {
                nlink - 1
            }))
        },
    }
}

/// Whether `rename` may replace an existing target of type `typ`
/// (directories cannot be replaced).
pub fn rename_target_ok(existing_typ: Option<u16>) -> (r: bool)
    ensures
        r == (existing_typ != Some(crate::layout::T_DIR)),
{
    match existing_typ {
        Some(t) => t != crate::layout::T_DIR,
        None => true,
    }
}

} // verus!
