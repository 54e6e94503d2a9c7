//! The child's address space for `fork`: a fresh page table with the
//! trampoline and a new trap frame, and a fresh frame for every page of
//! the parent's program image and for every page of its stack region
//! that it maps, each mapped with the parent's permission. The caller
//! copies the page contents.

use vstd::prelude::*;

use crate::hal::{FrameAllocator, PtePerm};
use crate::riscv::{TrapFrame, PGSIZE, TRAMPOLINE, TRAPFRAME};
use crate::sv39::{
    alloc_ready, frames_fit, lemma_on_page, lemma_owned_grew, lemma_owned_leaf, lemma_ready_prefix, lemma_taken_trans, owned,
    taken, PageTable,
};
use crate::user_vm::{STACK_PAGES, STACK_VA_BASE, STACK_VA_TOP};

verus! {

/// Pages of a program image that ends at `code_end`.
pub open spec fn code_pages(code_end: u64) -> int {
    (code_end + 4095) / 4096
}

/// Child page `k` maps a copy of the parent's page `k`: `copies[k]` is
/// (parent frame, child frame), and the child keeps the permission.
pub open spec fn page_copied(parent: &PageTable, child: &PageTable, copies: Seq<(u64, u64)>, k: int, va: u64) -> bool {
    &&& parent.lookup(va) is Some
    &&& copies[k].0 == parent.lookup(va).unwrap().0
    &&& child.lookup(va) == Some((copies[k].1, parent.lookup(va).unwrap().1 & 15))
}

/// The first `n` pages of the image are copied.
pub open spec fn pages_copied(parent: &PageTable, child: &PageTable, copies: Seq<(u64, u64)>, n: int) -> bool {
    forall|k: int| 0 <= k < n ==> #[trigger] page_copied(parent, child, copies, k, (k * 4096) as u64)
}

/// `b` lies on the page that starts at `p`.
pub open spec fn on_page(b: u64, p: u64) -> bool {
    p <= b < p + 4096
}

/// Every page the parent maps in its image (below `n` pages) or in its
/// stack region is a user page.
pub open spec fn user_image(parent: &PageTable, n: int) -> bool {
    forall|b: u64|
        #[trigger] parent.lookup(b) is Some && (b < n * 4096 || STACK_VA_BASE <= b < STACK_VA_TOP) ==> parent.lookup(
            b,
        ).unwrap().1 & 8 != 0
}

/// Page `j` of the stack region.
pub open spec fn stack_va(j: int) -> u64 {
    (STACK_VA_BASE + j * 4096) as u64
}

/// How many of the first `j` stack pages the parent maps.
pub open spec fn stack_mapped_before(parent: &PageTable, j: int) -> int
    decreases j,
{
    if j <= 0 {
        0
    } else {
        stack_mapped_before(parent, j - 1) + if parent.lookup(stack_va(j - 1)) is Some {
            1int
        } else {
            0
        }
    }
}

/// Every stack page the parent maps is copied: page `j` at index
/// `n + stack_mapped_before(parent, j)` of the copies.
pub open spec fn stack_copied(parent: &PageTable, child: &PageTable, copies: Seq<(u64, u64)>, n: int, upto: int) -> bool {
    forall|j: int|
        0 <= j < upto && parent.lookup(stack_va(j)) is Some ==> #[trigger] page_copied(
            parent,
            child,
            copies,
            n + stack_mapped_before(parent, j),
            stack_va(j),
        )
}

proof fn lemma_page_base(k: int)
    requires
        0 <= k < 0x40_0000_0000,
    ensures
        (k * 4096) % 4096 == 0,
        (k * 4096) / 4096 == k,
{
    assert((k * 4096) % 4096 == 0 && (k * 4096) / 4096 == k) by (nonlinear_arith)
        requires
            0 <= k,
    ;
}

/// Builds the child's page table for `fork` of a process whose image
/// ends at `code_end`. Returns the table, the child's trap-frame frame
/// and the page copies to make: one `(parent frame, child frame)` per
/// image page, then one per stack page the parent maps, lowest first.
/// `None` when an image page is missing in the parent, a frame cannot be
/// had, or a mapping fails.
#[verifier::rlimit(60)]
pub fn fork_address_space<A: FrameAllocator>(parent: &PageTable, alloc: &mut A, code_end: u64, trampoline_pa: u64) -> (r:
    Option<(PageTable, u64, Vec<(u64, u64)>)>)
    requires
        parent.wf(),
        old(alloc).frames_wf(),
        frames_fit(old(alloc).frames()),
        old(alloc).frames().no_duplicates(),
        trampoline_pa % 4096 == 0,
        trampoline_pa + 4096 <= 0x100_0000_0000_0000,
    ensures
        final(alloc).frames_wf(),
        frames_fit(final(alloc).frames()),
        final(alloc).frames().no_duplicates(),
        match r {
            Some((pt, tf_pa, copies)) => {
                let n = code_pages(code_end);
                &&& pt.wf()
                &&& alloc_ready(&pt, final(alloc))
                &&& pt.lookup(TRAMPOLINE) == Some((trampoline_pa, 5u32))
                &&& pt.lookup(TRAPFRAME) == Some((tf_pa, 3u32))
                &&& copies@.len() == n + stack_mapped_before(parent, STACK_PAGES as int)
                &&& pages_copied(parent, &pt, copies@, n)
                &&& stack_copied(parent, &pt, copies@, n, STACK_PAGES as int)
                &&& n * 4096 <= STACK_VA_BASE ==> forall|j: int|
                    0 <= j < STACK_PAGES && parent.lookup(stack_va(j)) is None ==> #[trigger] pt.lookup(stack_va(j))
                        is None
                &&& forall|b: u64|
                    #[trigger] pt.lookup(b) is Some ==> b < n * 4096 || STACK_VA_BASE <= b < STACK_VA_TOP || on_page(
                        b,
                        TRAMPOLINE,
                    ) || on_page(b, TRAPFRAME)
                &&& final(alloc).frames().len() <= old(alloc).frames().len()
                &&& final(alloc).frames() == old(alloc).frames().subrange(0, final(alloc).frames().len() as int)
                &&& user_image(parent, n) ==> owned(&pt).insert(tf_pa) == taken(
                    old(alloc).frames(),
                    final(alloc).frames(),
                ).to_multiset()
            },
            None => true,
        },
        (forall|k: int| 0 <= k < code_pages(code_end) ==> #[trigger] parent.lookup((k * 4096) as u64) is Some)
            && code_pages(code_end) * 4096 <= STACK_VA_BASE && old(alloc).frames().len() >= 6 + 3 * STACK_PAGES + 3
            * code_pages(code_end) ==> r is Some,
{
    let ghost f0 = alloc.frames();
    let ghost owed: bool = (forall|k: int|
        0 <= k < code_pages(code_end) ==> #[trigger] parent.lookup((k * 4096) as u64) is Some) && code_pages(code_end)
        * 4096 <= STACK_VA_BASE && f0.len() >= 6 + 3 * STACK_PAGES + 3 * code_pages(code_end);
    let ghost a0 = *alloc;
    let tf_pa: u64 = match alloc.alloc_zeroed() {
        None => return None,
        Some(p) => p,
    };
    proof {
        assert(f0[f0.len() - 1] == tf_pa);
        assert(tf_pa % 4096 == 0 && tf_pa < 0x100_0000_0000_0000);
        assert forall|i: int, j: int| 0 <= i < j < alloc.frames().len() implies alloc.frames()[i] != alloc.frames()[j] by {
            assert(alloc.frames()[i] == f0[i] && alloc.frames()[j] == f0[j]);
        }
        assert(alloc.frames().no_duplicates());
        assert forall|i: int| 0 <= i < alloc.frames().len() implies #[trigger] alloc.frames()[i] % 4096 == 0
            && alloc.frames()[i] < 0x100_0000_0000_0000 by {
            assert(alloc.frames()[i] == f0[i]);
        }
    }
    let mut pt = match PageTable::new(alloc) {
        Err(_) => return None,
        Ok(p) => p,
    };
    proof {
        assert(5u32 & 15 == 5u32 && 3u32 & 15 == 3u32) by (bit_vector);
    }
    let ghost pt0 = pt;
    let ghost fa = alloc.frames();
    let ghost ui = user_image(parent, code_pages(code_end));
    proof {
        broadcast use vstd::multiset::group_multiset_axioms;
        broadcast use vstd::seq_lib::group_seq_properties;

        assert(pt.lookup((TRAMPOLINE + 0 * 4096) as u64) is None);
        assert(5u32 & 8 == 0u32 && 3u32 & 8 == 0u32) by (bit_vector);
        assert(taken(f0, fa) =~= seq![pt0.root(), tf_pa]);
        assert(pt0.user_frames() =~= Seq::<u64>::empty());
        assert(Seq::<u64>::empty().to_multiset() =~= vstd::multiset::Multiset::<u64>::empty());
        assert(seq![pt0.root(), tf_pa] =~= seq![pt0.root()].push(tf_pa));
        assert(owned(&pt0).insert(tf_pa) =~= taken(f0, fa).to_multiset());
        assert(fa =~= f0.subrange(0, fa.len() as int));
    }
    if pt.map(TRAMPOLINE, trampoline_pa, PGSIZE, PtePerm::rx(), alloc).is_err() {
        return None;
    }
    let ghost pt1 = pt;
    let ghost fb = alloc.frames();
    proof {
        broadcast use vstd::multiset::group_multiset_axioms;

        lemma_owned_grew(&pt0, &pt1, fa, fb);
        lemma_taken_trans(f0, fa, fb);
        assert(owned(&pt1).insert(tf_pa) =~= taken(f0, fb).to_multiset());
    }
    proof {
        assert(pt.lookup((TRAPFRAME + 0 * 4096) as u64) == pt0.lookup((TRAPFRAME + 0 * 4096) as u64));
        assert(pt.lookup((TRAPFRAME + 0 * 4096) as u64) is None);
    }
    if pt.map(TRAPFRAME, tf_pa, PGSIZE, PtePerm::rw(), alloc).is_err() {
        return None;
    }
    proof {
        broadcast use vstd::multiset::group_multiset_axioms;

        let fc = alloc.frames();
        lemma_owned_grew(&pt1, &pt, fb, fc);
        lemma_taken_trans(f0, fb, fc);
        assert(owned(&pt).insert(tf_pa) =~= taken(f0, fc).to_multiset());
    }
    proof {
        assert(pt.lookup(TRAMPOLINE) == Some((trampoline_pa, 5u32)));
        assert(pt.lookup(TRAPFRAME) == Some((tf_pa, 3u32)));
        assert forall|b: u64| #[trigger] pt.lookup(b) is Some implies on_page(b, TRAMPOLINE) || on_page(b, TRAPFRAME) by {
            assert(pt0.lookup(b) is None);
            if !on_page(b, TRAPFRAME) {
                assert(pt.lookup(b) == pt1.lookup(b));
            }
        }
    }
    let mut copies: Vec<(u64, u64)> = Vec::new();
    let mut va: u64 = 0;
    let ghost mut k: int = 0;
    while va < code_end
        invariant
            parent.wf(),
            pt.wf(),
            alloc_ready(&pt, alloc),
            va == k * 4096,
            0 <= k,
            k < 0x40_0000_0001,
            va <= code_end + 4095,
            k <= code_pages(code_end),
            va < code_end ==> k < code_pages(code_end),
            va >= code_end ==> k == code_pages(code_end),
            copies@.len() == k,
            pages_copied(parent, &pt, copies@, k),
            pt.lookup(TRAMPOLINE) == Some((trampoline_pa, 5u32)),
            pt.lookup(TRAPFRAME) == Some((tf_pa, 3u32)),
            forall|b: u64|
                #[trigger] pt.lookup(b) is Some ==> b < va || on_page(b, TRAMPOLINE) || on_page(b, TRAPFRAME),
            owed == ((forall|j: int|
                0 <= j < code_pages(code_end) ==> #[trigger] parent.lookup((j * 4096) as u64) is Some) && code_pages(
                code_end,
            ) * 4096 <= STACK_VA_BASE && f0.len() >= 6 + 3 * STACK_PAGES + 3 * code_pages(code_end)),
            owed ==> alloc.frames().len() + 6 + 3 * k >= f0.len(),
            f0 == old(alloc).frames(),
            alloc.frames().len() <= f0.len(),
            alloc.frames() == f0.subrange(0, alloc.frames().len() as int),
            ui == user_image(parent, code_pages(code_end)),
            ui ==> owned(&pt).insert(tf_pa) == taken(f0, alloc.frames()).to_multiset(),
        decreases code_pages(code_end) - k,
    {
        let (ppa, perm) = match parent.translate(va) {
            None => return None,
            Some(x) => x,
        };
        proof {
            parent.lemma_lookup_in_range(va);
        }
        let ghost fr = alloc.frames();
        let ghost ab = *alloc;
        let cpa: u64 = match alloc.alloc_zeroed() {
            None => return None,
            Some(p) => p,
        };
        proof {
            assert(fr[fr.len() - 1] == cpa);
            assert(cpa % 4096 == 0 && cpa < 0x100_0000_0000_0000);
            lemma_ready_prefix(&pt, &ab, &*alloc);
        }
        let ghost before = pt;
        let ghost c0 = copies@;
        proof {
            if owed {
                assert(va + 4096 <= STACK_VA_BASE) by (nonlinear_arith)
                    requires
                        va == k * 4096,
                        k < code_pages(code_end),
                        code_pages(code_end) * 4096 <= STACK_VA_BASE,
                ;
                assert(pt.lookup((va + 0 * 4096) as u64) is None);
            }
        }
        if pt.map(va, cpa, PGSIZE, perm, alloc).is_err() {
            return None;
        }
        proof {
            broadcast use vstd::multiset::group_multiset_axioms;

            lemma_taken_trans(f0, fr, fr.drop_last());
            lemma_taken_trans(fr, fr.drop_last(), alloc.frames());
            lemma_taken_trans(f0, fr, alloc.frames());
            if ui {
                assert(va < code_pages(code_end) * 4096) by (nonlinear_arith)
                    requires
                        va == k * 4096,
                        k < code_pages(code_end),
                ;
                assert(parent.lookup(va) is Some);
                assert(perm.0 & 8 != 0);
                lemma_owned_leaf(&before, &pt, fr, alloc.frames(), cpa);
                assert(owned(&pt).insert(tf_pa) =~= taken(f0, alloc.frames()).to_multiset());
            }
        }
        copies.push((ppa, cpa));
        proof {
            assert(before.lookup((va + 0 * 4096) as u64) is None);
            assert(pt.lookup(va) == Some((cpa, perm.0 & 15)));
            assert(parent.lookup(va) == Some((ppa, perm.0)));
            assert forall|j: int| 0 <= j < k + 1 implies #[trigger] page_copied(parent, &pt, copies@, j, (j * 4096) as u64) by {
                if j < k {
                    assert(page_copied(parent, &before, c0, j, (j * 4096) as u64));
                    assert(copies@[j] == c0[j]);
                    assert((j * 4096) < va);
                    assert(pt.lookup((j * 4096) as u64) == before.lookup((j * 4096) as u64));
                } else {
                    assert(j * 4096 == va);
                }
            }
            assert(pt.lookup(TRAMPOLINE) == before.lookup(TRAMPOLINE));
            assert(pt.lookup(TRAPFRAME) == before.lookup(TRAPFRAME));
            assert forall|b: u64| #[trigger] pt.lookup(b) is Some implies b < va + 4096 || on_page(b, TRAMPOLINE)
                || on_page(b, TRAPFRAME) by {
                if !(va <= b < va + 4096) {
                    assert(pt.lookup(b) == before.lookup(b));
                }
            }
            assert((k + 1) * 4096 == va + 4096);
            assert(va + 4096 < code_end ==> k + 1 < code_pages(code_end)) by (nonlinear_arith)
                requires
                    va == k * 4096,
                    code_pages(code_end) == (code_end + 4095) / 4096,
            ;
            assert(va + 4096 >= code_end ==> k + 1 == code_pages(code_end)) by (nonlinear_arith)
                requires
                    va == k * 4096,
                    va < code_end,
                    code_pages(code_end) == (code_end + 4095) / 4096,
            ;
            k = k + 1;
        }
        va = va + PGSIZE;
    }
    let ghost n = k;
    let mut sj: u64 = 0;
    let mut sva: u64 = STACK_VA_BASE;
    while sj < STACK_PAGES
        invariant
            parent.wf(),
            pt.wf(),
            alloc_ready(&pt, alloc),
            n == code_pages(code_end),
            n < 0x40_0000_0001,
            sj <= STACK_PAGES,
            sva == STACK_VA_BASE + sj * 4096,
            copies@.len() == n + stack_mapped_before(parent, sj as int),
            pages_copied(parent, &pt, copies@, n),
            stack_copied(parent, &pt, copies@, n, sj as int),
            n * 4096 <= STACK_VA_BASE ==> forall|i: int|
                0 <= i < sj && parent.lookup(stack_va(i)) is None ==> #[trigger] pt.lookup(stack_va(i)) is None,
            pt.lookup(TRAMPOLINE) == Some((trampoline_pa, 5u32)),
            pt.lookup(TRAPFRAME) == Some((tf_pa, 3u32)),
            forall|b: u64|
                #[trigger] pt.lookup(b) is Some ==> b < n * 4096 || STACK_VA_BASE <= b < sva || on_page(b, TRAMPOLINE)
                    || on_page(b, TRAPFRAME),
            owed == ((forall|j: int|
                0 <= j < code_pages(code_end) ==> #[trigger] parent.lookup((j * 4096) as u64) is Some) && code_pages(
                code_end,
            ) * 4096 <= STACK_VA_BASE && f0.len() >= 6 + 3 * STACK_PAGES + 3 * code_pages(code_end)),
            owed ==> alloc.frames().len() + 6 + 3 * n + 3 * sj >= f0.len(),
            f0 == old(alloc).frames(),
            alloc.frames().len() <= f0.len(),
            alloc.frames() == f0.subrange(0, alloc.frames().len() as int),
            ui == user_image(parent, code_pages(code_end)),
            ui ==> owned(&pt).insert(tf_pa) == taken(f0, alloc.frames()).to_multiset(),
        decreases STACK_PAGES - sj,
    {
        let ghost before = pt;
        let ghost c0 = copies@;
        proof {
            lemma_stack_mapped_mono(parent, 0, sj as int);
            assert(stack_va(sj as int) == sva);
            assert(stack_mapped_before(parent, sj + 1) == stack_mapped_before(parent, sj as int) + if parent.lookup(
                stack_va(sj as int),
            ) is Some {
                1int
            } else {
                0
            });
        }
        match parent.translate(sva) {
            None => {
                proof {
                    assert forall|j: int|
                        0 <= j < sj + 1 && parent.lookup(stack_va(j)) is Some implies #[trigger] page_copied(
                        parent,
                        &pt,
                        copies@,
                        n + stack_mapped_before(parent, j),
                        stack_va(j),
                    ) by {
                        assert(j < sj);
                    }
                    if n * 4096 <= STACK_VA_BASE {
                        assert forall|i: int|
                            0 <= i < sj + 1 && parent.lookup(stack_va(i)) is None implies #[trigger] pt.lookup(
                            stack_va(i),
                        ) is None by {
                            if i == sj {
                                if pt.lookup(sva) is Some {
                                    assert(on_page(sva, TRAMPOLINE) || on_page(sva, TRAPFRAME));
                                }
                            }
                        }
                    }
                }
            },
            Some((spa, sperm)) => {
                let ghost fr = alloc.frames();
                let ghost ab = *alloc;
                let cpa: u64 = match alloc.alloc_zeroed() {
                    None => return None,
                    Some(p) => p,
                };
                proof {
                    assert(fr[fr.len() - 1] == cpa);
                    assert(cpa % 4096 == 0 && cpa < 0x100_0000_0000_0000);
                    lemma_ready_prefix(&pt, &ab, &*alloc);
                    if owed {
                        assert(pt.lookup((sva + 0 * 4096) as u64) is None) by {
                            if pt.lookup(sva) is Some {
                                assert(on_page(sva, TRAMPOLINE) || on_page(sva, TRAPFRAME));
                            }
                        }
                    }
                }
                if pt.map(sva, cpa, PGSIZE, sperm, alloc).is_err() {
                    return None;
                }
                proof {
                    broadcast use vstd::multiset::group_multiset_axioms;

                    lemma_taken_trans(f0, fr, fr.drop_last());
                    lemma_taken_trans(fr, fr.drop_last(), alloc.frames());
                    lemma_taken_trans(f0, fr, alloc.frames());
                    if ui {
                        assert(parent.lookup(sva) is Some);
                        assert(sperm.0 & 8 != 0);
                        lemma_owned_leaf(&before, &pt, fr, alloc.frames(), cpa);
                        assert(owned(&pt).insert(tf_pa) =~= taken(f0, alloc.frames()).to_multiset());
                    }
                }
                copies.push((spa, cpa));
                proof {
                    assert(before.lookup((sva + 0 * 4096) as u64) is None);
                    assert(pt.lookup(sva) == Some((cpa, sperm.0 & 15)));
                    assert(parent.lookup(sva) == Some((spa, sperm.0)));
                    assert forall|j: int| 0 <= j < n implies #[trigger] page_copied(
                        parent,
                        &pt,
                        copies@,
                        j,
                        (j * 4096) as u64,
                    ) by {
                        let b = (j * 4096) as u64;
                        assert(page_copied(parent, &before, c0, j, b));
                        assert(copies@[j] == c0[j]);
                        if on_page(b, sva) {
                            lemma_page_base(j);
                            lemma_on_page(sva, b);
                            assert(b == sva);
                            assert(false);
                        }
                        assert(pt.lookup(b) == before.lookup(b));
                    }
                    assert forall|j: int|
                        0 <= j < sj + 1 && parent.lookup(stack_va(j)) is Some implies #[trigger] page_copied(
                        parent,
                        &pt,
                        copies@,
                        n + stack_mapped_before(parent, j),
                        stack_va(j),
                    ) by {
                        if j < sj {
                            assert(page_copied(parent, &before, c0, n + stack_mapped_before(parent, j), stack_va(j)));
                            lemma_stack_mapped_mono(parent, j + 1, sj as int);
                            assert(stack_mapped_before(parent, j + 1) == stack_mapped_before(parent, j) + 1);
                            assert(n + stack_mapped_before(parent, j) < c0.len());
                            let idx = n + stack_mapped_before(parent, j);
                            assert(copies@ == c0.push((spa, cpa)));
                            lemma_stack_mapped_mono(parent, 0, j);
                            assert(0 <= idx);
                            assert(c0.push((spa, cpa))[idx] == c0[idx]);
                            assert(copies@[idx] == c0[idx]);
                            assert(pt.lookup(stack_va(j)) == before.lookup(stack_va(j)));
                        }
                    }
                    if n * 4096 <= STACK_VA_BASE {
                        assert forall|i: int|
                            0 <= i < sj + 1 && parent.lookup(stack_va(i)) is None implies #[trigger] pt.lookup(
                            stack_va(i),
                        ) is None by {
                            assert(i < sj);
                            assert(pt.lookup(stack_va(i)) == before.lookup(stack_va(i)));
                        }
                    }
                    assert(pt.lookup(TRAMPOLINE) == before.lookup(TRAMPOLINE));
                    assert(pt.lookup(TRAPFRAME) == before.lookup(TRAPFRAME));
                    assert forall|b: u64| #[trigger] pt.lookup(b) is Some implies b < n * 4096 || STACK_VA_BASE <= b < sva
                        + 4096 || on_page(b, TRAMPOLINE) || on_page(b, TRAPFRAME) by {
                        if !(sva <= b < sva + 4096) {
                            assert(pt.lookup(b) == before.lookup(b));
                        }
                    }
                }
            },
        }
        sj = sj + 1;
        sva = sva + PGSIZE;
    }
    Some((pt, tf_pa, copies))
}

/// More stack pages hold at least as many mapped ones.
proof fn lemma_stack_mapped_mono(parent: &PageTable, a: int, b: int)
    requires
        0 <= a <= b,
    ensures
        stack_mapped_before(parent, a) <= stack_mapped_before(parent, b),
    decreases b - a,
{
    if a < b {
        lemma_stack_mapped_mono(parent, a, b - 1);
    }
}

/// The child's trap frame: the parent's registers, with `fork` returning
/// 0 in the child.
pub fn fork_trapframe(parent: &TrapFrame) -> (r: TrapFrame)
    ensures
        r == (TrapFrame { a0: 0, ..*parent }),
{
    let mut tf = *parent;
    tf.a0 = 0;
    tf
}

} // verus!
