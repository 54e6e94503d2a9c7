//! User-image layout: the fixed user stack region and the initial
//! `argc` / `argv[]` / `envp[]` block at the top of the stack.
//!
//! Layout of the topmost stack page (low to high):
//!   sp           : argc (u64)
//!   sp + 8       : argv[0..argc+1] (null-terminated)
//!   ...          : envp[0..n+1]    (null-terminated; absent if empty)
//!   ...          : argv strings    (NUL-terminated, packed)
//!   ...          : envp strings
//!   STACK_VA_TOP : end

use vstd::prelude::*;

use crate::bytes::{le16, le64, put_u64};
use crate::elf::{
    copies_ok, header_error, image_plan, in_segment, lemma_plan_kept, load_fits, load_pages, load_program, max_end,
    page_down, ph_end, ph_type, ph_vaddr, range_mapped, segments_mapped, CopyOp, ElfError,
};
use crate::hal::{FrameAllocator, PtePerm, VmError};
use crate::riscv::{PGSIZE, TRAMPOLINE, TRAPFRAME};
use crate::sv39::{alloc_ready, frames_fit, lemma_owned_grew, lemma_owned_leaf, lemma_taken_trans, owned, taken, PageTable};

verus! {

/// The stack ends where the trap frame page begins.
pub const STACK_VA_TOP: u64 = TRAPFRAME;
/// Pages in the fixed user stack region.
pub const STACK_PAGES: u64 = 8;
pub const STACK_VA_BASE: u64 = 0x3f_ffff_6000;
/// VA of the topmost stack page; the argument block lives in it.
pub const STACK_TOP_PAGE_VA: u64 = 0x3f_ffff_d000;
/// Top of the mmap region: 16 MiB of guard below the stack.
pub const MMAP_TOP: u64 = 0x3f_feff_6000;

/// Why building a user image failed.
#[derive(Debug, Clone, Copy, PartialEq, Eq, Structural)]
pub enum UserVmError {
    Oom,
    MapFailed,
    Elf(crate::elf::ElfError),
}

/// Bytes taken by the first `n` strings of `v`, each with its NUL.
pub open spec fn strs_len(v: Seq<Vec<u8>>, n: int) -> int
    decreases n,
{
    if n <= 0 {
        0
    } else {
        strs_len(v, n - 1) + v[n - 1]@.len() + 1
    }
}

/// Bytes of the pointer array for `c` entries (with its null), or none
/// when an empty environment gets no array.
pub open spec fn envp_array_bytes(c: int) -> int {
    if c == 0 {
        0
    } else {
        8 * (c + 1)
    }
}

/// Size of the whole argument block.
pub open spec fn layout_total(argv: Seq<Vec<u8>>, envp: Seq<Vec<u8>>) -> int {
    let sa = strs_len(argv, argv.len() as int) + strs_len(envp, envp.len() as int);
    8 + 8 * (argv.len() + 1) + envp_array_bytes(envp.len() as int) + (sa + 7) / 8 * 8
}

/// Pointer slot `j` of the array at `arr` holds the address of string
/// `j` of `v`, whose bytes and NUL sit at `soff + strs_len(v, j)`.
pub open spec fn entry_ok(page: Seq<u8>, arr: int, soff: int, sva: int, v: Seq<Vec<u8>>, j: int) -> bool {
    &&& le64(page, arr + 8 * j) == sva + strs_len(v, j)
    &&& forall|c: int| 0 <= c < v[j]@.len() ==> #[trigger] page[soff + strs_len(v, j) + c] == v[j]@[c]
    &&& page[soff + strs_len(v, j) + v[j]@.len()] == 0
}

/// The first `n` entries of `v` are in place.
pub open spec fn entries_ok(page: Seq<u8>, arr: int, soff: int, sva: int, v: Seq<Vec<u8>>, n: int) -> bool {
    forall|j: int| 0 <= j < n ==> #[trigger] entry_ok(page, arr, soff, sva, v, j)
}

/// `strs_len` grows by each string and its NUL.
proof fn lemma_strs_len_mono(v: Seq<Vec<u8>>, j: int, n: int)
    requires
        0 <= j < n <= v.len(),
    ensures
        strs_len(v, j) + v[j]@.len() + 1 <= strs_len(v, n),
        0 <= strs_len(v, j),
    decreases n - j,
{
    lemma_strs_len_nonneg(v, j);
    if j + 1 < n {
        lemma_strs_len_mono(v, j + 1, n);
    }
}

proof fn lemma_strs_len_nonneg(v: Seq<Vec<u8>>, n: int)
    ensures
        strs_len(v, n) >= 0,
    decreases n,
{
    if n > 0 {
        lemma_strs_len_nonneg(v, n - 1);
    }
}

/// Writes `s` followed by a NUL at `off`.
fn put_cstr(page: &mut Vec<u8>, off: usize, s: &Vec<u8>)
    requires
        off + s@.len() + 1 <= old(page)@.len(),
    ensures
        final(page)@.len() == old(page)@.len(),
        forall|c: int| 0 <= c < s@.len() ==> #[trigger] final(page)@[off + c] == s@[c],
        final(page)@[off + s@.len()] == 0,
        forall|k: int|
            0 <= k < old(page)@.len() && !(off <= k <= off + s@.len()) ==> #[trigger] final(page)@[k]
                == old(page)@[k],
{
    let n: usize = s.len();
    let _plen: usize = page.len();
    let mut c: usize = 0;
    while c < n
        invariant
            n == s@.len(),
            c <= n,
            off + n + 1 <= old(page)@.len(),
            _plen == old(page)@.len(),
            page@.len() == old(page)@.len(),
            forall|d: int| 0 <= d < c ==> #[trigger] page@[off + d] == s@[d],
            forall|k: int|
                0 <= k < old(page)@.len() && !(off <= k < off + c) ==> #[trigger] page@[k] == old(page)@[k],
        decreases n - c,
    {
        page.set(off + c, s[c]);
        c = c + 1;
    }
    page.set(off + n, 0);
}

/// Sum of `len + 1` over the strings of `v`.
fn strings_size(v: &[Vec<u8>]) -> (r: u64)
    requires
        strs_len(v@, v@.len() as int) < 4096,
    ensures
        r == strs_len(v@, v@.len() as int),
{
    let mut sum: u64 = 0;
    let mut i: usize = 0;
    let n: usize = v.len();
    while i < n
        invariant
            n == v@.len(),
            i <= n,
            sum == strs_len(v@, i as int),
            strs_len(v@, v@.len() as int) < 4096,
        decreases n - i,
    {
        proof {
            lemma_strs_len_mono(v@, i as int, n as int);
        }
        sum = sum + v[i].len() as u64 + 1;
        i = i + 1;
    }
    sum
}


/// Writes one array of string pointers and the strings behind it: the
/// strings of `v` go at page offset `soff` (addresses from `sva` on),
/// the pointers at page offset `arr`, closed by a null pointer.
fn put_strings(page: &mut Vec<u8>, arr: usize, soff: usize, sva: u64, v: &[Vec<u8>])
    requires
        old(page)@.len() == 4096,
        arr + 8 * (v@.len() + 1) <= soff,
        soff + strs_len(v@, v@.len() as int) <= 4096,
        sva + strs_len(v@, v@.len() as int) <= u64::MAX,
    ensures
        final(page)@.len() == 4096,
        entries_ok(final(page)@, arr as int, soff as int, sva as int, v@, v@.len() as int),
        le64(final(page)@, arr + 8 * v@.len()) == 0,
        forall|k: int|
            0 <= k < 4096 && !(arr <= k < arr + 8 * (v@.len() + 1)) && !(soff <= k < soff + strs_len(
                v@,
                v@.len() as int,
            )) ==> #[trigger] final(page)@[k] == old(page)@[k],
{
    let n: usize = v.len();
    let mut i: usize = 0;
    let mut so: usize = soff;
    let mut va: u64 = sva;
    proof {
        lemma_strs_len_nonneg(v@, n as int);
    }
    while i < n
        invariant
            n == v@.len(),
            i <= n,
            page@.len() == 4096,
            arr + 8 * (n + 1) <= soff,
            soff + strs_len(v@, n as int) <= 4096,
            sva + strs_len(v@, n as int) <= u64::MAX,
            so == soff + strs_len(v@, i as int),
            va == sva + strs_len(v@, i as int),
            entries_ok(page@, arr as int, soff as int, sva as int, v@, i as int),
            forall|k: int|
                0 <= k < 4096 && !(arr <= k < arr + 8 * i) && !(soff <= k < soff + strs_len(v@, i as int))
                    ==> #[trigger] page@[k] == old(page)@[k],
        decreases n - i,
    {
        proof {
            lemma_strs_len_mono(v@, i as int, n as int);
        }
        let ghost p0 = page@;
        put_cstr(page, so, &v[i]);
        let ghost p1 = page@;
        put_u64(page, arr + 8 * i, va);
        proof {
            assert forall|j: int| 0 <= j < i + 1 implies #[trigger] entry_ok(page@, arr as int, soff as int, sva as int, v@, j) by {
                if j < i {
                    lemma_strs_len_mono(v@, j, i as int);
                    assert(entry_ok(p0, arr as int, soff as int, sva as int, v@, j));
                    assert forall|c: int| 0 <= c < v@[j]@.len() implies #[trigger] page@[soff + strs_len(v@, j) + c] == v@[j]@[c] by {
                        assert(p0[soff + strs_len(v@, j) + c] == v@[j]@[c]);
                    }
                    assert(page@[soff + strs_len(v@, j) + v@[j]@.len()] == p0[soff + strs_len(v@, j) + v@[j]@.len()]);
                    assert(le64(page@, arr + 8 * j) == le64(p0, arr + 8 * j));
                } else {
                    assert forall|c: int| 0 <= c < v@[j]@.len() implies #[trigger] page@[soff + strs_len(v@, j) + c] == v@[j]@[c] by {
                        assert(p1[so + c] == v@[j]@[c]);
                    }
                }
            }
        }
        so = so + v[i].len() + 1;
        va = va + v[i].len() as u64 + 1;
        i = i + 1;
    }
    let ghost p0 = page@;
    put_u64(page, arr + 8 * n, 0);
    proof {
        assert forall|j: int| 0 <= j < n implies #[trigger] entry_ok(page@, arr as int, soff as int, sva as int, v@, j) by {
            lemma_strs_len_mono(v@, j, n as int);
            assert(entry_ok(p0, arr as int, soff as int, sva as int, v@, j));
            assert forall|c: int| 0 <= c < v@[j]@.len() implies #[trigger] page@[soff + strs_len(v@, j) + c] == v@[j]@[c] by {
                assert(p0[soff + strs_len(v@, j) + c] == v@[j]@[c]);
            }
            assert(page@[soff + strs_len(v@, j) + v@[j]@.len()] == p0[soff + strs_len(v@, j) + v@[j]@.len()]);
            assert(le64(page@, arr + 8 * j) == le64(p0, arr + 8 * j));
        }
    }
}


/// `[x, x + n)` and `[y, y + m)` do not overlap.
pub open spec fn apart(x: int, n: int, y: int, m: int) -> bool {
    x + n <= y || y + m <= x
}

/// Entries stay in place when only bytes of two regions apart from
/// them change.
proof fn lemma_entries_frame(
    p0: Seq<u8>,
    p1: Seq<u8>,
    arr: int,
    soff: int,
    sva: int,
    v: Seq<Vec<u8>>,
    n: int,
    a: int,
    an: int,
    b: int,
    bn: int,
)
    requires
        p0.len() == 4096,
        p1.len() == 4096,
        0 <= arr,
        0 <= soff,
        0 <= n <= v.len(),
        arr + 8 * (n + 1) <= 4096,
        soff + strs_len(v, n) <= 4096,
        entries_ok(p0, arr, soff, sva, v, n),
        le64(p0, arr + 8 * n) == 0,
        apart(arr, 8 * (n + 1), a, an),
        apart(arr, 8 * (n + 1), b, bn),
        apart(soff, strs_len(v, n), a, an),
        apart(soff, strs_len(v, n), b, bn),
        forall|k: int| 0 <= k < 4096 && !(a <= k < a + an) && !(b <= k < b + bn) ==> #[trigger] p1[k] == p0[k],
    ensures
        entries_ok(p1, arr, soff, sva, v, n),
        le64(p1, arr + 8 * n) == 0,
{
    assert forall|j: int| 0 <= j < n implies #[trigger] entry_ok(p1, arr, soff, sva, v, j) by {
        lemma_strs_len_mono(v, j, n);
        assert(entry_ok(p0, arr, soff, sva, v, j));
        assert forall|c: int| 0 <= c < v[j]@.len() implies #[trigger] p1[soff + strs_len(v, j) + c] == v[j]@[c] by {
            assert(p0[soff + strs_len(v, j) + c] == v[j]@[c]);
        }
        assert(p1[soff + strs_len(v, j) + v[j]@.len()] == p0[soff + strs_len(v, j) + v[j]@.len()]);
        assert(le64(p1, arr + 8 * j) == le64(p0, arr + 8 * j));
    }
    assert(le64(p1, arr + 8 * n) == le64(p0, arr + 8 * n));
}

/// Lays out `argc`, the null-terminated `argv[]` and `envp[]` arrays
/// and the NUL-terminated strings at the top of the topmost stack page
/// `page`. Returns `(sp, argv_va, envp_va)`; `envp_va` is 0 when `envp`
/// is empty. Bytes of `page` outside the written block are untouched.
pub fn place_argv_envp_on_stack(page: &mut Vec<u8>, argv: &[Vec<u8>], envp: &[Vec<u8>]) -> (r: (u64, u64, u64))
    requires
        old(page)@.len() == 4096,
        layout_total(argv@, envp@) < 4096,
    ensures
        ({
            let t = layout_total(argv@, envp@);
            let argc = argv@.len() as int;
            let envc = envp@.len() as int;
            let sa = strs_len(argv@, argc);
            let sp_off = 4096 - t;
            let argv_off = sp_off + 8;
            let envp_off = argv_off + 8 * (argc + 1);
            let soff = envp_off + envp_array_bytes(envc);
            let sva = STACK_TOP_PAGE_VA + soff;
            &&& r.0 == STACK_VA_TOP - t
            &&& r.1 == r.0 + 8
            &&& r.2 == (if envc == 0 {
                0
            } else {
                r.1 + 8 * (argc + 1)
            })
            &&& final(page)@.len() == 4096
            &&& le64(final(page)@, sp_off) == argc
            &&& entries_ok(final(page)@, argv_off, soff, sva, argv@, argc)
            &&& le64(final(page)@, argv_off + 8 * argc) == 0
            &&& envc > 0 ==> entries_ok(final(page)@, envp_off, soff + sa, sva + sa, envp@, envc) && le64(
                final(page)@,
                envp_off + 8 * envc,
            ) == 0
            &&& forall|k: int|
                0 <= k < 4096 && (k < sp_off || k >= soff + sa + strs_len(envp@, envc)) ==> #[trigger] final(page)@[k]
                    == old(page)@[k]
        }),
{
    let argc: usize = argv.len();
    let envc: usize = envp.len();
    proof {
        lemma_strs_len_nonneg(argv@, argc as int);
        lemma_strs_len_nonneg(envp@, envc as int);
        assert((strs_len(argv@, argc as int) + strs_len(envp@, envc as int) + 7) / 8 * 8 >= strs_len(argv@, argc as int) + strs_len(envp@, envc as int)) by (nonlinear_arith)
            requires
                strs_len(argv@, argc as int) + strs_len(envp@, envc as int) >= 0,
        ;
    }
    let sa: u64 = strings_size(argv);
    let se: u64 = strings_size(envp);
    let strings_aligned: u64 = (sa + se + 7) / 8 * 8;
    let argv_bytes: u64 = 8 * (argc as u64 + 1);
    let envp_bytes: u64 = if envc == 0 {
        0
    } else {
        8 * (envc as u64 + 1)
    };
    let total: u64 = 8 + argv_bytes + envp_bytes + strings_aligned;
    let sp_va: u64 = STACK_VA_TOP - total;
    let argv_va: u64 = sp_va + 8;
    let envp_va: u64 = if envc == 0 {
        0
    } else {
        argv_va + argv_bytes
    };
    let sp_off: usize = (4096 - total) as usize;
    let argv_off: usize = sp_off + 8;
    let envp_off: usize = argv_off + argv_bytes as usize;
    let soff: usize = envp_off + envp_bytes as usize;
    let sva: u64 = STACK_TOP_PAGE_VA + soff as u64;
    put_u64(page, sp_off, argc as u64);
    let ghost p1 = page@;
    put_strings(page, argv_off, soff, sva, argv);
    let ghost p2 = page@;
    proof {
        assert(le64(p2, sp_off as int) == le64(p1, sp_off as int));
    }
    if envc != 0 {
        put_strings(page, envp_off, soff + sa as usize, sva + sa, envp);
        proof {
            lemma_entries_frame(
                p2,
                page@,
                argv_off as int,
                soff as int,
                sva as int,
                argv@,
                argc as int,
                envp_off as int,
                8 * (envc + 1),
                soff + sa,
                se as int,
            );
            assert(le64(page@, sp_off as int) == le64(p2, sp_off as int));
        }
    }
    (sp_va, argv_va, envp_va)
}

/// `place_argv_envp_on_stack` with no environment; returns
/// `(sp, argv_va)`.
pub fn place_argv_on_stack(page: &mut Vec<u8>, argv: &[Vec<u8>]) -> (r: (u64, u64))
    requires
        old(page)@.len() == 4096,
        layout_total(argv@, Seq::<Vec<u8>>::empty()) < 4096,
    ensures
        ({
            let t = layout_total(argv@, Seq::<Vec<u8>>::empty());
            let argc = argv@.len() as int;
            let sp_off = 4096 - t;
            let soff = sp_off + 8 + 8 * (argc + 1);
            &&& r.0 == STACK_VA_TOP - t
            &&& r.1 == r.0 + 8
            &&& final(page)@.len() == 4096
            &&& le64(final(page)@, sp_off) == argc
            &&& entries_ok(final(page)@, sp_off + 8, soff, STACK_TOP_PAGE_VA + soff, argv@, argc)
            &&& le64(final(page)@, sp_off + 8 + 8 * argc) == 0
            &&& forall|k: int|
                0 <= k < 4096 && (k < sp_off || k >= soff + strs_len(argv@, argc)) ==> #[trigger] final(page)@[k]
                    == old(page)@[k]
        }),
{
    let empty: Vec<Vec<u8>> = Vec::new();
    proof {
        assert(empty@ =~= Seq::<Vec<u8>>::empty());
    }
    let (sp, argv_va, _) = place_argv_envp_on_stack(page, argv, empty.as_slice());
    (sp, argv_va)
}


/// Mappings of the loaded segments survive adding stack pages where
/// nothing was mapped.
proof fn lemma_segments_kept(pt3: &PageTable, pt: &PageTable, e: Seq<u8>, n: int)
    requires
        segments_mapped(pt3, e, n),
        forall|b: u64| !(STACK_VA_BASE <= b < STACK_VA_TOP) ==> #[trigger] pt.lookup(b) == pt3.lookup(b),
        forall|b: u64| STACK_VA_BASE <= b < STACK_VA_TOP ==> #[trigger] pt3.lookup(b) is None,
    ensures
        segments_mapped(pt, e, n),
{
    assert forall|j: int| 0 <= j < n && crate::elf::ph_type(e, j) == 1 implies #[trigger] range_mapped(
        pt,
        crate::elf::page_down(crate::elf::ph_vaddr(e, j)),
        crate::elf::ph_end(e, j),
        crate::elf::phdr_perm_spec(crate::elf::ph_flags(e, j) as u32),
    ) by {
        let lo = crate::elf::page_down(crate::elf::ph_vaddr(e, j));
        let hi = crate::elf::ph_end(e, j);
        let q = crate::elf::phdr_perm_spec(crate::elf::ph_flags(e, j) as u32);
        assert(range_mapped(pt3, lo, hi, q));
        assert forall|b: u64| lo <= b < hi implies #[trigger] pt.lookup(b) is Some && pt.lookup(b).unwrap().1 == q & 15 by {
            assert(pt3.lookup(b) is Some);
            if STACK_VA_BASE <= b < STACK_VA_TOP {
                assert(pt3.lookup(b) is None);
            }
            assert(pt.lookup(b) == pt3.lookup(b));
        }
    }
}

/// A freshly built user address space.
pub struct UserImage {
    pub pagetable: PageTable,
    pub entry: u64,
    pub code_end: u64,
    /// Physical frame of the topmost stack page.
    pub stack_pa: u64,
}

/// Frame behind stack page `m`.
pub open spec fn stack_frame(pt: &PageTable, m: int) -> u64 {
    pt.lookup((STACK_VA_BASE + m * 4096) as u64).unwrap().0
}

/// Builds a user page table for `elf_bytes`: trampoline and trap frame
/// at the top, the ELF's loadable segments, and `STACK_PAGES` fresh
/// stack pages below the trap frame. Returns the image and the file
/// bytes to copy into the segment frames.
#[verifier::rlimit(50)]
pub fn build_image_from_elf<A: FrameAllocator>(
    alloc: &mut A,
    elf_bytes: &[u8],
    trapframe_pa: u64,
    trampoline_pa: u64,
) -> (r: Result<(UserImage, Vec<CopyOp>), UserVmError>)
    requires
        old(alloc).frames_wf(),
        frames_fit(old(alloc).frames()),
        old(alloc).frames().no_duplicates(),
        trapframe_pa % 4096 == 0,
        trampoline_pa % 4096 == 0,
        trapframe_pa + 4096 <= 0x100_0000_0000_0000,
        trampoline_pa + 4096 <= 0x100_0000_0000_0000,
    ensures
        final(alloc).frames_wf(),
        frames_fit(final(alloc).frames()),
        final(alloc).frames().no_duplicates(),
        header_error(elf_bytes@) is Some && old(alloc).frames().len() >= 5 ==> r == Err::<
            (UserImage, Vec<CopyOp>),
            UserVmError,
        >(UserVmError::Elf(header_error(elf_bytes@)->0)),
        old(alloc).frames().len() == 0 ==> r == Err::<(UserImage, Vec<CopyOp>), UserVmError>(UserVmError::Oom),
        match r {
            Ok((img, ops)) => {
                let pt = img.pagetable;
                &&& pt.wf()
                &&& alloc_ready(&pt, final(alloc))
                &&& pt.lookup(TRAMPOLINE) == Some((trampoline_pa, 5u32))
                &&& pt.lookup(TRAPFRAME) == Some((trapframe_pa, 3u32))
                &&& header_error(elf_bytes@) is None
                &&& img.entry == crate::bytes::le64(elf_bytes@, 24)
                &&& img.code_end == max_end(elf_bytes@, crate::bytes::le16(elf_bytes@, 56))
                &&& segments_mapped(&pt, elf_bytes@, crate::bytes::le16(elf_bytes@, 56))
                &&& range_mapped(&pt, STACK_VA_BASE as int, STACK_VA_TOP as int, 11)
                &&& pt.lookup(STACK_TOP_PAGE_VA) == Some((img.stack_pa, 11u32))
                &&& forall|m1: int, m2: int|
                    0 <= m1 < m2 < STACK_PAGES ==> #[trigger] stack_frame(&pt, m1) != #[trigger] stack_frame(&pt, m2)
                &&& final(alloc).frames() == old(alloc).frames().subrange(0, final(alloc).frames().len() as int)
                &&& owned(&pt) == taken(old(alloc).frames(), final(alloc).frames()).to_multiset()
                &&& copies_ok(ops@, elf_bytes@.len() as int)
                &&& image_plan(ops@, &pt, elf_bytes@, le16(elf_bytes@, 56))
            },
            Err(e) => e matches UserVmError::Elf(x) ==> if header_error(elf_bytes@) is Some {
                x == header_error(elf_bytes@)->0
            } else {
                x == ElfError::Oom || x == ElfError::MapFailed || x == ElfError::Truncated
            },
        },
        load_fits(elf_bytes@) && (forall|i: int|
            0 <= i < le16(elf_bytes@, 56) && ph_type(elf_bytes@, i) == 1 ==> #[trigger] ph_end(elf_bytes@, i)
                <= STACK_VA_BASE) && old(alloc).frames().len() >= 5 + 3 * STACK_PAGES + 3 * load_pages(
            elf_bytes@,
            le16(elf_bytes@, 56),
        ) ==> r is Ok,
{
    let ghost f0 = alloc.frames();
    let ghost owed = load_fits(elf_bytes@) && (forall|i: int|
        0 <= i < le16(elf_bytes@, 56) && ph_type(elf_bytes@, i) == 1 ==> #[trigger] ph_end(elf_bytes@, i)
            <= STACK_VA_BASE) && f0.len() >= 5 + 3 * STACK_PAGES + 3 * load_pages(elf_bytes@, le16(elf_bytes@, 56));
    proof {
        crate::elf::lemma_load_pages_mono(elf_bytes@, 0, le16(elf_bytes@, 56));
    }
    let mut pt = match PageTable::new(alloc) {
        Err(_) => return Err(UserVmError::Oom),
        Ok(pt) => pt,
    };
    let ghost pt0 = pt;
    let ghost fa = alloc.frames();
    proof {
        broadcast use vstd::multiset::group_multiset_axioms;
        broadcast use vstd::seq_lib::group_seq_properties;

        assert(5u32 & 15 == 5u32 && 3u32 & 15 == 3u32 && 11u32 & 15 == 11u32 && 5u32 & 8 == 0u32 && 3u32 & 8 == 0u32
            && 11u32 & 8 != 0u32) by (bit_vector);
        assert(taken(f0, fa) =~= seq![pt0.root()]);
        assert(pt0.user_frames() =~= Seq::<u64>::empty());
        assert(Seq::<u64>::empty().to_multiset() =~= vstd::multiset::Multiset::<u64>::empty());
        assert(owned(&pt0) =~= taken(f0, fa).to_multiset());
        assert(fa =~= f0.subrange(0, fa.len() as int));
    }
    let r1 = pt.map(TRAMPOLINE, trampoline_pa, PGSIZE, PtePerm::rx(), alloc);
    if r1.is_err() {
        return Err(UserVmError::MapFailed);
    }
    let ghost pt1 = pt;
    let ghost fb = alloc.frames();
    proof {
        lemma_owned_grew(&pt0, &pt1, fa, fb);
        lemma_taken_trans(f0, fa, fb);
        assert(owned(&pt1) =~= taken(f0, fb).to_multiset());
    }
    proof {
        assert(pt1.lookup(TRAMPOLINE) == Some((trampoline_pa, 5u32)));
        assert(pt1.lookup(TRAPFRAME) is None);
        assert(pt1.lookup((TRAPFRAME + 0 * 4096) as u64) is None);
    }
    let r2 = pt.map(TRAPFRAME, trapframe_pa, PGSIZE, PtePerm::rw(), alloc);
    if r2.is_err() {
        return Err(UserVmError::MapFailed);
    }
    let ghost pt2 = pt;
    let ghost fc = alloc.frames();
    proof {
        broadcast use vstd::multiset::group_multiset_axioms;

        lemma_owned_grew(&pt1, &pt2, fb, fc);
        lemma_taken_trans(f0, fb, fc);
        assert(owned(&pt2) =~= taken(f0, fc).to_multiset());
    }
    proof {
        assert(pt2.lookup(TRAMPOLINE) == Some((trampoline_pa, 5u32)));
        assert(pt2.lookup(TRAPFRAME) == Some((trapframe_pa, 3u32)));
    }
    proof {
        if owed {
            assert forall|i: int, b: u64|
                #![trigger ph_end(elf_bytes@, i), pt.lookup(b)]
                0 <= i < le16(elf_bytes@, 56) && ph_type(elf_bytes@, i) == 1 && page_down(ph_vaddr(elf_bytes@, i)) <= b
                    < ph_end(elf_bytes@, i) implies pt.lookup(b) is None by {
                assert(pt.lookup(b) == pt1.lookup(b));
                assert(pt1.lookup(b) == pt0.lookup(b));
            }
        }
    }
    let (entry, code_end, ops) = match load_program(&mut pt, alloc, elf_bytes) {
        Err(e) => return Err(UserVmError::Elf(e)),
        Ok(x) => x,
    };
    let ghost pt3 = pt;
    proof {
        broadcast use vstd::multiset::group_multiset_axioms;

        lemma_taken_trans(f0, fc, alloc.frames());
        assert(owned(&pt3) =~= taken(f0, alloc.frames()).to_multiset());
    }
    proof {
        if owed {
            assert forall|b: u64| STACK_VA_BASE <= b < STACK_VA_TOP implies #[trigger] pt3.lookup(b) is None by {
                if in_segment(elf_bytes@, le16(elf_bytes@, 56), b) {
                    let j = choose|j: int|
                        0 <= j < le16(elf_bytes@, 56) && ph_type(elf_bytes@, j) == 1 && page_down(ph_vaddr(elf_bytes@, j))
                            <= b < #[trigger] ph_end(elf_bytes@, j);
                    assert(ph_end(elf_bytes@, j) <= STACK_VA_BASE);
                }
                assert(pt3.lookup(b) == pt2.lookup(b));
                assert(pt2.lookup(b) == pt1.lookup(b));
                assert(pt1.lookup(b) == pt0.lookup(b));
            }
        }
    }
    let mut stack_pa: u64 = 0;
    let mut i: u64 = 0;
    while i < STACK_PAGES
        invariant
            pt.wf(),
            alloc_ready(&pt, alloc),
            header_error(elf_bytes@) is None,
            old(alloc).frames().len() > 0,
            11u32 & 15 == 11u32,
            11u32 & 8 != 0u32,
            i <= STACK_PAGES,
            forall|b: u64| !(STACK_VA_BASE <= b < STACK_VA_BASE + i * 4096) ==> #[trigger] pt.lookup(b) == pt3.lookup(b),
            range_mapped(&pt, STACK_VA_BASE as int, STACK_VA_BASE + i * 4096, 11),
            forall|b: u64| STACK_VA_BASE <= b < STACK_VA_BASE + i * 4096 ==> #[trigger] pt3.lookup(b) is None,
            i == STACK_PAGES ==> pt.lookup(STACK_TOP_PAGE_VA) == Some((stack_pa, 11u32)),
            f0 == old(alloc).frames(),
            owed == (load_fits(elf_bytes@) && (forall|j: int|
                0 <= j < le16(elf_bytes@, 56) && ph_type(elf_bytes@, j) == 1 ==> #[trigger] ph_end(elf_bytes@, j)
                    <= STACK_VA_BASE) && f0.len() >= 5 + 3 * STACK_PAGES + 3 * load_pages(elf_bytes@, le16(elf_bytes@, 56))),
            owed ==> alloc.frames().len() >= 3 * (STACK_PAGES - i),
            owed ==> forall|b: u64| STACK_VA_BASE <= b < STACK_VA_TOP ==> #[trigger] pt3.lookup(b) is None,
            forall|m: int| 0 <= m < i ==> !alloc.frames().contains(#[trigger] stack_frame(&pt, m)),
            alloc.frames().len() <= f0.len(),
            alloc.frames() == f0.subrange(0, alloc.frames().len() as int),
            owned(&pt) == taken(f0, alloc.frames()).to_multiset(),
            forall|m1: int, m2: int|
                0 <= m1 < m2 < i ==> #[trigger] stack_frame(&pt, m1) != #[trigger] stack_frame(&pt, m2),
        decreases STACK_PAGES - i,
    {
        let ghost fr0 = alloc.frames();
        let ghost a0 = *alloc;
        let pa = match alloc.alloc_zeroed() {
            None => return Err(UserVmError::Oom),
            Some(p) => p,
        };
        proof {
            assert(fr0[fr0.len() - 1] == pa);
            assert(pa % 4096 == 0 && pa < 0x100_0000_0000_0000);
            crate::sv39::lemma_ready_prefix(&pt, &a0, &*alloc);
        }
        let va: u64 = STACK_VA_BASE + i * PGSIZE;
        let ghost before = pt;
        let rm = pt.map(va, pa, PGSIZE, PtePerm::urw(), alloc);
        if rm.is_err() {
            return Err(UserVmError::MapFailed);
        }
        proof {
            broadcast use vstd::multiset::group_multiset_axioms;

            lemma_owned_leaf(&before, &pt, fr0, alloc.frames(), pa);
            lemma_taken_trans(f0, fr0, alloc.frames());
            assert(owned(&pt) =~= taken(f0, alloc.frames()).to_multiset());
        }
        proof {
            assert forall|b: u64| STACK_VA_BASE <= b < STACK_VA_BASE + (i + 1) * 4096 implies #[trigger] pt.lookup(b) is Some
                && pt.lookup(b).unwrap().1 == 11u32 & 15 by {
                if b < va {
                    assert(pt.lookup(b) == before.lookup(b));
                }
            }
            assert forall|b: u64| !(STACK_VA_BASE <= b < STACK_VA_BASE + (i + 1) * 4096) implies #[trigger] pt.lookup(b) == pt3.lookup(b) by {
                assert(pt.lookup(b) == before.lookup(b));
            }
            assert(before.lookup((va + 0 * 4096) as u64) is None);
            assert forall|b: u64| STACK_VA_BASE <= b < STACK_VA_BASE + (i + 1) * 4096 implies #[trigger] pt3.lookup(b) is None by {
                if b >= va {
                    assert(b / 4096 == va / 4096) by (nonlinear_arith)
                        requires
                            va <= b < va + 4096,
                            va % 4096 == 0,
                    ;
                    before.lemma_same_page_lookup(va, b);
                    assert(before.lookup(b) == pt3.lookup(b));
                }
            }
            if i == STACK_PAGES - 1 {
                assert(va == STACK_TOP_PAGE_VA);
                assert(pt.lookup(STACK_TOP_PAGE_VA) == Some((pa, 11u32)));
            }
            assert(pt.lookup(va) == Some((pa, 11u32)));
            assert(stack_frame(&pt, i as int) == pa);
            assert forall|m: int| 0 <= m < i implies stack_frame(&pt, m) == stack_frame(&before, m) by {
                assert(pt.lookup((STACK_VA_BASE + m * 4096) as u64) == before.lookup((STACK_VA_BASE + m * 4096) as u64));
            }
            assert forall|m: int| 0 <= m < i + 1 implies !alloc.frames().contains(#[trigger] stack_frame(&pt, m)) by {
                if alloc.frames().contains(stack_frame(&pt, m)) {
                    let x = choose|x: int| 0 <= x < alloc.frames().len() && alloc.frames()[x] == stack_frame(&pt, m);
                    assert(alloc.frames()[x] == fr0[x]);
                    if m < i {
                        assert(fr0.contains(stack_frame(&before, m)));
                    } else {
                        assert(fr0[x] == fr0[fr0.len() - 1]);
                    }
                }
            }
            assert forall|m1: int, m2: int|
                0 <= m1 < m2 < i + 1 implies #[trigger] stack_frame(&pt, m1) != #[trigger] stack_frame(&pt, m2) by {
                if m2 == i {
                    assert(!fr0.contains(stack_frame(&before, m1)));
                    assert(fr0[fr0.len() - 1] == pa);
                } else {
                    assert(stack_frame(&before, m1) != stack_frame(&before, m2));
                }
            }
        }
        if i == STACK_PAGES - 1 {
            stack_pa = pa;
        }
        i = i + 1;
    }
    proof {
        assert(pt.lookup(TRAMPOLINE) == pt3.lookup(TRAMPOLINE));
        assert(pt.lookup(TRAPFRAME) == pt3.lookup(TRAPFRAME));
        lemma_segments_kept(&pt3, &pt, elf_bytes@, crate::bytes::le16(elf_bytes@, 56));
        assert forall|x: u64| #[trigger] pt3.lookup(x) is Some implies pt.lookup(x) == pt3.lookup(x) by {
            if STACK_VA_BASE <= x < STACK_VA_BASE + STACK_PAGES * 4096 {
                assert(pt3.lookup(x) is None);
            }
        }
        lemma_plan_kept(ops@, &pt3, &pt, elf_bytes@, crate::bytes::le16(elf_bytes@, 56));
        assert(pt.lookup(STACK_TOP_PAGE_VA) == Some((stack_pa, 11u32)));
        assert(range_mapped(&pt, STACK_VA_BASE as int, STACK_VA_TOP as int, 11));
    }
    Ok((UserImage { pagetable: pt, entry, code_end, stack_pa }, ops))
}

} // verus!
