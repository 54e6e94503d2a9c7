//! ELF64 loader: parses the file header and the program-header table
//! and maps every PT_LOAD segment page by page into a user page table.
//! The bytes that a page takes from the file are returned as copy
//! orders for the caller to carry out on the fresh frames; the rest of
//! each frame stays zero.

use vstd::prelude::*;

use crate::bytes::{get_u16, get_u32, get_u64, le16, le32, le64};
use crate::hal::{FrameAllocator, PtePerm, VmError};
use crate::riscv::MAXVA;
use crate::sv39::{alloc_ready, grew_by, lemma_owned_leaf, lemma_taken_trans, owned, taken, PageTable};

verus! {

pub const PT_LOAD: u32 = 1;
pub const PF_X: u32 = 1;
pub const PF_W: u32 = 2;
pub const PF_R: u32 = 4;
/// `e_machine` accepted by this build (EM_RISCV).
pub const EXPECTED_MACHINE: u16 = 243;
/// Size of the ELF64 file header.
pub const EHDR_SIZE: u64 = 64;
/// Size of an ELF64 program header.
pub const PHDR_SIZE: u64 = 56;

/// Why loading an ELF image failed.
#[derive(Debug, Clone, Copy, PartialEq, Eq, Structural)]
pub enum ElfError {
    NotElf,
    WrongArch,
    Truncated,
    Oom,
    MapFailed,
}

/// The file starts with the ELF magic.
pub open spec fn has_magic(e: Seq<u8>) -> bool {
    e[0] == 0x7f && e[1] == 0x45 && e[2] == 0x4c && e[3] == 0x46
}

/// Verdict on the file header alone: `None` when loading may go on.
pub open spec fn header_error(e: Seq<u8>) -> Option<ElfError> {
    if e.len() < 64 {
        Some(ElfError::Truncated)
    } else if !has_magic(e) {
        Some(ElfError::NotElf)
    } else if le16(e, 18) != 243 {
        Some(ElfError::WrongArch)
    } else {
        None
    }
}

/// Page permission of a segment: user, plus R/W/X from `p_flags`.
pub open spec fn phdr_perm_spec(flags: u32) -> u32 {
    8 | (if flags & PF_R != 0 {
        1u32
    } else {
        0u32
    }) | (if flags & PF_W != 0 {
        2u32
    } else {
        0u32
    }) | (if flags & PF_X != 0 {
        4u32
    } else {
        0u32
    })
}

/// A segment's pages are user pages, readable exactly when its flags
/// have PF_R (4), writable exactly when they have PF_W (2) and
/// executable exactly when they have PF_X (1), each independently of
/// the others; no other bit is set.
pub proof fn law_phdr_perm_bits(flags: u32)
    ensures
        phdr_perm_spec(flags) & 8 != 0,
        (phdr_perm_spec(flags) & 1 != 0) == (flags & 4 != 0),
        (phdr_perm_spec(flags) & 2 != 0) == (flags & 2 != 0),
        (phdr_perm_spec(flags) & 4 != 0) == (flags & 1 != 0),
        phdr_perm_spec(flags) < 16,
        PF_X == 1 && PF_W == 2 && PF_R == 4,
{
    let p = phdr_perm_spec(flags);
    let r: u32 = if flags & 4 != 0 { 1 } else { 0 };
    let w: u32 = if flags & 2 != 0 { 2 } else { 0 };
    let x: u32 = if flags & 1 != 0 { 4 } else { 0 };
    assert(p == 8 | r | w | x);
    assert(((8 | r | w | x) & 8 != 0) && (((8 | r | w | x) & 1 != 0) == (r == 1)) && (((8 | r | w | x) & 2 != 0) == (w
        == 2)) && (((8 | r | w | x) & 4 != 0) == (x == 4)) && (8 | r | w | x) < 16) by (bit_vector)
        requires
            r == 0 || r == 1,
            w == 0 || w == 2,
            x == 0 || x == 4,
    ;
}

/// Where the loader reads an ELF64 image: the program-header table
/// at `e_phoff` (file header bytes 32-39) with entries of `e_phentsize`
/// bytes (54-55), `e_phnum` of them (56-57), the machine at 18 and the
/// entry point at 24; in program header `i`, `p_type` at 0, `p_flags`
/// at 4, `p_offset` at 8, `p_vaddr` at 16, `p_filesz` at 32 and
/// `p_memsz` at 40, all little-endian.
pub proof fn law_elf_fields(e: Seq<u8>, i: int)
    ensures
        ph_off(e, i) == le64(e, 32) + i * le16(e, 54),
        ph_type(e, i) == le32(e, ph_off(e, i)),
        ph_flags(e, i) == le32(e, ph_off(e, i) + 4),
        ph_offset(e, i) == le64(e, ph_off(e, i) + 8),
        ph_vaddr(e, i) == le64(e, ph_off(e, i) + 16),
        ph_filesz(e, i) == le64(e, ph_off(e, i) + 32),
        ph_memsz(e, i) == le64(e, ph_off(e, i) + 40),
        header_error(e) is None <==> (e.len() >= 64 && e[0] == 0x7f && e[1] == 0x45 && e[2] == 0x4c && e[3] == 0x46
            && le16(e, 18) == 243),
        PT_LOAD == 1,
{
}

/// Rounding down to a page boundary gives the greatest multiple of 4096
/// at or below `v`; a segment spans the pages from there to its end
/// rounded up.
pub proof fn law_page_down(v: int, m: int)
    requires
        v >= 0,
    ensures
        page_down(v) % 4096 == 0,
        v - 4096 < page_down(v) <= v,
        m % 4096 == 0 && m <= v ==> m <= page_down(v),
{
    let p = page_down(v);
    assert(p % 4096 == 0 && v - 4096 < p <= v) by (nonlinear_arith)
        requires
            v >= 0,
            p == v / 4096 * 4096,
    ;
    if m % 4096 == 0 && m <= v {
        assert(m <= p) by (nonlinear_arith)
            requires
                m % 4096 == 0,
                p % 4096 == 0,
                m <= v,
                v - 4096 < p,
        ;
    }
}

/// Permission for a segment with flags `p_flags`.
pub fn phdr_perms(p_flags: u32) -> (r: PtePerm)
    ensures
        r.0 == phdr_perm_spec(p_flags),
{
    PtePerm(
        8 | (if p_flags & PF_R != 0 {
            1u32
        } else {
            0u32
        }) | (if p_flags & PF_W != 0 {
            2u32
        } else {
            0u32
        }) | (if p_flags & PF_X != 0 {
            4u32
        } else {
            0u32
        }),
    )
}

/// Every address of `[start, end)` is mapped with permission bits `perm`.
pub open spec fn range_mapped(pt: &PageTable, start: int, end: int, perm: u32) -> bool {
    forall|b: u64| start <= b < end ==> #[trigger] pt.lookup(b) is Some && pt.lookup(b).unwrap().1 == perm & 15
}

/// A copy order: `len` bytes from file offset `src` to offset `dst` of
/// the frame at `pa`.
#[derive(Debug, Clone, Copy, PartialEq, Eq, Structural)]
pub struct CopyOp {
    pub pa: u64,
    pub dst: u64,
    pub src: u64,
    pub len: u64,
}

/// A copy order stays inside the file and inside one page.
pub open spec fn copy_ok(op: CopyOp, file_len: int) -> bool {
    op.src + op.len <= file_len && op.dst + op.len <= 4096
}

/// All copy orders are in bounds.
pub open spec fn copies_ok(ops: Seq<CopyOp>, file_len: int) -> bool {
    forall|k: int| 0 <= k < ops.len() ==> #[trigger] copy_ok(ops[k], file_len)
}

/// First page boundary at or below `v`.
pub open spec fn page_down(v: int) -> int {
    v / 4096 * 4096
}

/// Frame behind the page of address `b` in `pt`.
pub open spec fn frame_of(pt: &PageTable, b: int) -> u64 {
    pt.lookup(page_down(b) as u64).unwrap().0
}

/// Copy order `op` writes byte `b` of the segment at `vaddr` whose file
/// image starts at file offset `file_off`: it targets the frame mapped
/// at `b`'s page, covers `b`'s offset in that page, and takes the byte
/// from the file offset that belongs to `b`.
pub open spec fn op_places(op: CopyOp, pt: &PageTable, b: int, vaddr: int, file_off: int) -> bool {
    &&& pt.lookup(page_down(b) as u64) is Some
    &&& op.pa == frame_of(pt, b)
    &&& op.dst <= b % 4096 < op.dst + op.len
    &&& op.src + (b % 4096 - op.dst) == file_off + (b - vaddr)
}

/// Some order of `ops` writes byte `b` of the segment.
pub open spec fn byte_copied(ops: Seq<CopyOp>, pt: &PageTable, b: int, vaddr: int, file_off: int) -> bool {
    exists|k: int| 0 <= k < ops.len() && #[trigger] op_places(ops[k], pt, b, vaddr, file_off)
}

/// Every address of `[vaddr, vaddr + filesz)` below `end` gets its file
/// byte from some order of `ops`.
pub open spec fn file_bytes_copied(
    ops: Seq<CopyOp>,
    pt: &PageTable,
    vaddr: int,
    filesz: int,
    file_off: int,
    end: int,
) -> bool {
    forall|b: int| vaddr <= b < vaddr + filesz && b < end ==> #[trigger] byte_copied(ops, pt, b, vaddr, file_off)
}

/// Copy order `op` writes file bytes of the segment only: for a mapped
/// page `va` whose frame it targets, its bytes are the addresses
/// `[va + dst, va + dst + len)`, all inside `[vaddr, vaddr + filesz)`,
/// taken from the file offsets that belong to them.
pub open spec fn op_in_segment(op: CopyOp, pt: &PageTable, vaddr: int, filesz: int, file_off: int) -> bool {
    exists|va: int|
        va % 4096 == 0 && pt.lookup(va as u64) is Some && op.pa == #[trigger] frame_of(pt, va) && op.len > 0
            && vaddr <= va + op.dst && va + op.dst + op.len <= vaddr + filesz && op.src == file_off + (va + op.dst
            - vaddr)
}

/// `c` keeps every translation that `a` has.
pub open spec fn keeps_mapped(a: &PageTable, c: &PageTable) -> bool {
    forall|x: u64| #[trigger] a.lookup(x) is Some ==> c.lookup(x) == a.lookup(x)
}

/// Coverage of a segment's file bytes survives a page table that keeps
/// the old translations.
proof fn lemma_bytes_kept(
    ops: Seq<CopyOp>,
    a: &PageTable,
    c: &PageTable,
    vaddr: int,
    filesz: int,
    file_off: int,
    end: int,
)
    requires
        keeps_mapped(a, c),
        file_bytes_copied(ops, a, vaddr, filesz, file_off, end),
    ensures
        file_bytes_copied(ops, c, vaddr, filesz, file_off, end),
{
    assert forall|b: int| vaddr <= b < vaddr + filesz && b < end implies #[trigger] byte_copied(
        ops,
        c,
        b,
        vaddr,
        file_off,
    ) by {
        assert(byte_copied(ops, a, b, vaddr, file_off));
        let k = choose|k: int| 0 <= k < ops.len() && #[trigger] op_places(ops[k], a, b, vaddr, file_off);
        assert(a.lookup(page_down(b) as u64) is Some);
        assert(op_places(ops[k], c, b, vaddr, file_off));
    }
}

/// An order that writes only segment bytes keeps doing so under a page
/// table that keeps the old translations.
proof fn lemma_op_kept(op: CopyOp, a: &PageTable, c: &PageTable, vaddr: int, filesz: int, file_off: int)
    requires
        keeps_mapped(a, c),
        op_in_segment(op, a, vaddr, filesz, file_off),
    ensures
        op_in_segment(op, c, vaddr, filesz, file_off),
{
    let va = choose|va: int|
        va % 4096 == 0 && a.lookup(va as u64) is Some && op.pa == #[trigger] frame_of(a, va) && op.len > 0 && vaddr
            <= va + op.dst && va + op.dst + op.len <= vaddr + filesz && op.src == file_off + (va + op.dst - vaddr);
    assert(page_down(va) == va) by (nonlinear_arith)
        requires
            va % 4096 == 0,
    ;
    assert(c.lookup(va as u64) == a.lookup(va as u64));
    assert(op.pa == frame_of(c, va));
}

/// Coverage survives appending orders.
proof fn lemma_bytes_more(
    ops: Seq<CopyOp>,
    more: Seq<CopyOp>,
    pt: &PageTable,
    vaddr: int,
    filesz: int,
    file_off: int,
    end: int,
)
    requires
        ops.len() <= more.len(),
        more.subrange(0, ops.len() as int) == ops,
        file_bytes_copied(ops, pt, vaddr, filesz, file_off, end),
    ensures
        file_bytes_copied(more, pt, vaddr, filesz, file_off, end),
{
    assert forall|b: int| vaddr <= b < vaddr + filesz && b < end implies #[trigger] byte_copied(
        more,
        pt,
        b,
        vaddr,
        file_off,
    ) by {
        assert(byte_copied(ops, pt, b, vaddr, file_off));
        let k = choose|k: int| 0 <= k < ops.len() && #[trigger] op_places(ops[k], pt, b, vaddr, file_off);
        assert(more[k] == more.subrange(0, ops.len() as int)[k]);
        assert(op_places(more[k], pt, b, vaddr, file_off));
    }
}

/// Pages of the segment at `vaddr` spanning `memsz` bytes.
pub open spec fn span_pages(vaddr: int, memsz: int) -> int {
    (page_down(vaddr + memsz + 4095) - page_down(vaddr)) / 4096
}

/// The segment fits below `MAXVA`, and the file bytes its pages take
/// (`filesz` bytes from `file_off`, cut at the segment's last page) lie
/// inside a file of `flen` bytes.
pub open spec fn segment_fits(vaddr: int, memsz: int, filesz: int, file_off: int, flen: int) -> bool {
    &&& vaddr + memsz <= MAXVA
    &&& filesz == 0 || file_off + (if filesz < page_down(vaddr + memsz + 4095) - vaddr {
        filesz
    } else {
        page_down(vaddr + memsz + 4095) - vaddr
    }) <= flen
}

/// Maps one segment: pages `[page_down(vaddr), page_down(vaddr + memsz
/// + 4095))`, each on a fresh frame, and records the file bytes that
/// each page takes. Returns the segment's page-rounded end. It succeeds
/// when the segment fits, its pages are unmapped and `alloc` has three
/// frames per page.
fn load_segment<A: FrameAllocator>(
    pt: &mut PageTable,
    alloc: &mut A,
    elf: &[u8],
    vaddr: u64,
    memsz: u64,
    filesz: u64,
    file_off: u64,
    perm: PtePerm,
    ops: &mut Vec<CopyOp>,
) -> (r: Result<u64, ElfError>)
    requires
        old(pt).wf(),
        alloc_ready(old(pt), old(alloc)),
        copies_ok(old(ops)@, elf@.len() as int),
    ensures
        final(pt).wf(),
        alloc_ready(final(pt), final(alloc)),
        final(pt).root() == old(pt).root(),
        copies_ok(final(ops)@, elf@.len() as int),
        match r {
            Ok(end) => {
                &&& end == page_down(vaddr + memsz + 4095)
                &&& end <= MAXVA
                &&& range_mapped(final(pt), page_down(vaddr as int), end as int, perm.0)
                &&& forall|b: u64| page_down(vaddr as int) <= b < end ==> #[trigger] old(pt).lookup(b) is None
                &&& keeps_mapped(old(pt), final(pt))
                &&& forall|b: u64|
                    !(page_down(vaddr as int) <= b < end) ==> #[trigger] final(pt).lookup(b) == old(pt).lookup(b)
                &&& old(ops)@.len() <= final(ops)@.len()
                &&& final(ops)@.subrange(0, old(ops)@.len() as int) == old(ops)@
                &&& file_bytes_copied(final(ops)@, final(pt), vaddr as int, filesz as int, file_off as int, end as int)
                &&& forall|k: int|
                    old(ops)@.len() <= k < final(ops)@.len() ==> #[trigger] op_in_segment(
                        final(ops)@[k],
                        final(pt),
                        vaddr as int,
                        filesz as int,
                        file_off as int,
                    )
            },
            Err(e) => e == ElfError::Oom || e == ElfError::MapFailed || e == ElfError::Truncated,
        },
        final(alloc).frames().len() + 3 * span_pages(vaddr as int, memsz as int) >= old(alloc).frames().len(),
        final(alloc).frames().len() <= old(alloc).frames().len(),
        final(alloc).frames() == old(alloc).frames().subrange(0, final(alloc).frames().len() as int),
        r is Ok && perm.0 & 8 != 0 ==> owned(final(pt)) == owned(old(pt)).add(
            taken(old(alloc).frames(), final(alloc).frames()).to_multiset(),
        ),
        segment_fits(vaddr as int, memsz as int, filesz as int, file_off as int, elf@.len() as int) && (forall|b: u64|
            page_down(vaddr as int) <= b < page_down(vaddr + memsz + 4095) ==> #[trigger] old(pt).lookup(b) is None)
            && old(alloc).frames().len() >= 3 * span_pages(vaddr as int, memsz as int) ==> r is Ok,
{
    let _flen: usize = elf.len();
    proof {
        lemma_page_down_mono(vaddr as int, vaddr + memsz + 4095);
        broadcast use vstd::multiset::group_multiset_axioms;
        broadcast use vstd::seq_lib::group_seq_properties;

        assert(Seq::<u64>::empty().to_multiset() =~= vstd::multiset::Multiset::<u64>::empty());
        assert(alloc.frames() =~= alloc.frames().subrange(0, alloc.frames().len() as int));
        assert(taken(alloc.frames(), alloc.frames()) =~= Seq::<u64>::empty());
        assert(owned(pt).add(Seq::<u64>::empty().to_multiset()) =~= owned(pt));
    }
    if memsz > MAXVA || vaddr > MAXVA - memsz {
        return Err(ElfError::MapFailed);
    }
    let seg_start: u64 = vaddr / 4096 * 4096;
    let seg_end: u64 = (vaddr + memsz + 4095) / 4096 * 4096;
    proof {
        assert(seg_end <= 0x40_0000_0000) by (nonlinear_arith)
            requires
                seg_end == (vaddr + memsz + 4095) / 4096 * 4096,
                vaddr + memsz <= 0x40_0000_0000,
        ;
    }
    if seg_end > MAXVA {
        return Err(ElfError::MapFailed);
    }
    let mut va: u64 = seg_start;
    let ghost pt0 = *pt;
    let ghost ops0 = ops@;
    let ghost f0 = alloc.frames();
    let ghost owed = segment_fits(vaddr as int, memsz as int, filesz as int, file_off as int, elf@.len() as int)
        && (forall|b: u64| page_down(vaddr as int) <= b < page_down(vaddr + memsz + 4095) ==> #[trigger] pt0.lookup(b) is None)
        && f0.len() >= 3 * span_pages(vaddr as int, memsz as int);
    let ghost mut k: int = 0;
    proof {
        assert(seg_start % 4096 == 0) by (nonlinear_arith)
            requires
                seg_start == vaddr / 4096 * 4096,
        ;
        assert(seg_start <= vaddr) by (nonlinear_arith)
            requires
                seg_start == vaddr / 4096 * 4096,
        ;
        assert(seg_end % 4096 == 0) by (nonlinear_arith)
            requires
                seg_end == (vaddr + memsz + 4095) / 4096 * 4096,
        ;
        assert(seg_end >= vaddr + memsz) by (nonlinear_arith)
            requires
                seg_end == (vaddr + memsz + 4095) / 4096 * 4096,
        ;
    }
    while va < seg_end
        invariant
            pt.wf(),
            alloc_ready(pt, alloc),
            pt.root() == pt0.root(),
            pt0 == *old(pt),
            copies_ok(ops@, elf@.len() as int),
            seg_start as int == page_down(vaddr as int),
            seg_start <= va <= seg_end,
            va % 4096 == 0,
            seg_start % 4096 == 0,
            seg_end % 4096 == 0,
            seg_end <= MAXVA,
            seg_end as int == page_down(vaddr + memsz + 4095),
            range_mapped(pt, seg_start as int, va as int, perm.0),
            forall|b: u64| !(seg_start <= b < va) ==> #[trigger] pt.lookup(b) == pt0.lookup(b),
            forall|b: u64| seg_start <= b < va ==> #[trigger] pt0.lookup(b) is None,
            elf@.len() == _flen,
            f0 == old(alloc).frames(),
            owed == (segment_fits(vaddr as int, memsz as int, filesz as int, file_off as int, elf@.len() as int)
                && (forall|b: u64| page_down(vaddr as int) <= b < page_down(vaddr + memsz + 4095) ==> #[trigger] pt0.lookup(b) is None)
                && f0.len() >= 3 * span_pages(vaddr as int, memsz as int)),
            va == seg_start + 4096 * k,
            span_pages(vaddr as int, memsz as int) == (seg_end - seg_start) / 4096,
            alloc.frames().len() + 3 * k >= f0.len(),
            alloc.frames().len() <= f0.len(),
            alloc.frames() == f0.subrange(0, alloc.frames().len() as int),
            perm.0 & 8 != 0 ==> owned(pt) == owned(&pt0).add(taken(f0, alloc.frames()).to_multiset()),
            ops0 == old(ops)@,
            ops0.len() <= ops@.len(),
            ops@.subrange(0, ops0.len() as int) == ops0,
            file_bytes_copied(ops@, pt, vaddr as int, filesz as int, file_off as int, va as int),
            forall|k: int|
                ops0.len() <= k < ops@.len() ==> #[trigger] op_in_segment(
                    ops@[k],
                    pt,
                    vaddr as int,
                    filesz as int,
                    file_off as int,
                ),
        decreases seg_end - va,
    {
        let ghost fr0 = alloc.frames();
        let ghost a0 = *alloc;
        proof {
            assert(k + 1 <= (seg_end - seg_start) / 4096 && va + 4096 <= seg_end) by (nonlinear_arith)
                requires
                    va == seg_start + 4096 * k,
                    va < seg_end,
                    seg_start % 4096 == 0,
                    seg_end % 4096 == 0,
            ;
        }
        let pa = match alloc.alloc_zeroed() {
            None => return Err(ElfError::Oom),
            Some(p) => p,
        };
        let ghost before = *pt;
        proof {
            assert(fr0[fr0.len() - 1] == pa);
            assert(pa % 4096 == 0 && pa < 0x100_0000_0000_0000);
            crate::sv39::lemma_ready_prefix(pt, &a0, &*alloc);
            if owed {
                assert(pt0.lookup(va) is None);
                assert(pt.lookup((va + 0 * 4096) as u64) is None);
            }
        }
        let res = pt.map(va, pa, 4096, perm, alloc);
        proof {
            lemma_taken_trans(f0, fr0, fr0.drop_last());
            lemma_taken_trans(fr0, fr0.drop_last(), alloc.frames());
            lemma_taken_trans(f0, fr0, alloc.frames());
        }
        if res.is_err() {
            return Err(ElfError::MapFailed);
        }
        proof {
            assert(pt.lookup(va) == Some((pa, perm.0 & 15)));
            assert forall|x: u64| #[trigger] before.lookup(x) is Some implies pt.lookup(x) == before.lookup(x) by {
                if va <= x < va + 4096 {
                    assert(x / 4096 == va / 4096) by (nonlinear_arith)
                        requires
                            va <= x < va + 4096,
                            va % 4096 == 0,
                    ;
                    before.lemma_same_page_lookup(va, x);
                }
            }
            lemma_bytes_kept(ops@, &before, pt, vaddr as int, filesz as int, file_off as int, va as int);
            assert forall|k: int| ops0.len() <= k < ops@.len() implies #[trigger] op_in_segment(
                ops@[k],
                pt,
                vaddr as int,
                filesz as int,
                file_off as int,
            ) by {
                lemma_op_kept(ops@[k], &before, pt, vaddr as int, filesz as int, file_off as int);
            }
        }
        proof {
            if perm.0 & 8 != 0 {
                lemma_owned_leaf(&before, pt, fr0, alloc.frames(), pa);
                assert(owned(pt) =~= owned(&pt0).add(taken(f0, alloc.frames()).to_multiset()));
            }
        }
        proof {
            assert forall|b: u64| seg_start <= b < va + 4096 implies #[trigger] pt.lookup(b) is Some
                && pt.lookup(b).unwrap().1 == perm.0 & 15 by {
                if b >= va {
                } else {
                    assert(pt.lookup(b) == before.lookup(b));
                }
            }
            assert forall|b: u64| !(seg_start <= b < va + 4096) implies #[trigger] pt.lookup(b) == pt0.lookup(b) by {
                assert(pt.lookup(b) == before.lookup(b));
            }
            assert(before.lookup((va + 0 * 4096) as u64) is None);
            assert forall|b: u64| seg_start <= b < va + 4096 implies #[trigger] pt0.lookup(b) is None by {
                if b >= va {
                    assert(b / 4096 == va / 4096) by (nonlinear_arith)
                        requires
                            va <= b < va + 4096,
                            va % 4096 == 0,
                    ;
                    before.lemma_same_page_lookup(va, b);
                    assert(before.lookup(b) == pt0.lookup(b));
                }
            }
        }
        let page_end: u64 = va + 4096;
        let lo: u64 = if va > vaddr {
            va
        } else {
            vaddr
        };
        let hi: u64 = if filesz > page_end - vaddr || vaddr >= page_end {
            page_end
        } else {
            vaddr + filesz
        };
        proof {
            if owed && hi > lo {
                assert(filesz > 0);
                assert(hi - vaddr <= filesz && hi <= seg_end);
            }
        }
        if hi > lo {
            let dst_off: u64 = lo - va;
            let len: u64 = hi - lo;
            if file_off > (_flen as u64) || lo - vaddr > (_flen as u64) - file_off || len > (_flen as u64)
                - file_off - (lo - vaddr) {
                return Err(ElfError::Truncated);
            }
            let src_off: u64 = file_off + (lo - vaddr);
            let ghost ops1 = ops@;
            ops.push(CopyOp { pa, dst: dst_off, src: src_off, len });
            proof {
                assert(copy_ok(ops@[ops@.len() - 1], elf@.len() as int));
                assert forall|k: int| 0 <= k < ops@.len() implies #[trigger] copy_ok(ops@[k], elf@.len() as int) by {
                    if k < ops@.len() - 1 {
                    }
                }
                lemma_new_op(ops1, ops@, pt, va as int, pa, lo as int, hi as int, vaddr as int, filesz as int, file_off as int, ops0.len() as int);
            }
        } else {
            proof {
                assert forall|b: int| vaddr <= b < vaddr + filesz && b < va + 4096 implies #[trigger] byte_copied(
                    ops@,
                    pt,
                    b,
                    vaddr as int,
                    file_off as int,
                ) by {
                    if b >= va {
                        assert(b >= lo && b < hi);
                    }
                }
            }
        }
        va = va + 4096;
        proof {
            k = k + 1;
        }
    }
    proof {
        assert(k == (seg_end - seg_start) / 4096) by (nonlinear_arith)
            requires
                seg_end == seg_start + 4096 * k,
        ;
    }
    Ok(seg_end)
}

/// Appending the order for the file bytes `[lo, hi)` of the page at
/// `va` (mapped to frame `pa`) extends coverage to the end of that page,
/// and the new order writes only segment bytes.
proof fn lemma_new_op(
    ops1: Seq<CopyOp>,
    ops2: Seq<CopyOp>,
    pt: &PageTable,
    va: int,
    pa: u64,
    lo: int,
    hi: int,
    vaddr: int,
    filesz: int,
    file_off: int,
    from: int,
)
    requires
        0 <= from <= ops1.len(),
        0 <= va < MAXVA,
        va % 4096 == 0,
        pt.lookup(va as u64) is Some,
        pt.lookup(va as u64).unwrap().0 == pa,
        lo == (if va > vaddr { va } else { vaddr }),
        hi == (if filesz > va + 4096 - vaddr || vaddr >= va + 4096 { va + 4096 } else { vaddr + filesz }),
        lo < hi,
        0 <= vaddr,
        0 <= filesz,
        0 <= file_off,
        ops2 == ops1.push((CopyOp { pa, dst: (lo - va) as u64, src: (file_off + (lo - vaddr)) as u64, len: (hi - lo) as u64 })),
        file_off + (lo - vaddr) <= u64::MAX,
        file_bytes_copied(ops1, pt, vaddr, filesz, file_off, va),
        forall|k: int| from <= k < ops1.len() ==> #[trigger] op_in_segment(ops1[k], pt, vaddr, filesz, file_off),
    ensures
        file_bytes_copied(ops2, pt, vaddr, filesz, file_off, va + 4096),
        forall|k: int| from <= k < ops2.len() ==> #[trigger] op_in_segment(ops2[k], pt, vaddr, filesz, file_off),
        ops2.subrange(0, ops1.len() as int) == ops1,
{
    assert(ops2.subrange(0, ops1.len() as int) =~= ops1);
    let op = ops2[ops1.len() as int];
    assert(page_down(va) == va) by (nonlinear_arith)
        requires
            va % 4096 == 0,
    ;
    assert(frame_of(pt, va) == pa);
    assert(op_in_segment(op, pt, vaddr, filesz, file_off));
    assert forall|k: int| from <= k < ops2.len() implies #[trigger] op_in_segment(ops2[k], pt, vaddr, filesz, file_off) by {
        if k < ops1.len() {
            assert(ops2[k] == ops1[k]);
        }
    }
    lemma_bytes_more(ops1, ops2, pt, vaddr, filesz, file_off, va);
    assert forall|b: int| vaddr <= b < vaddr + filesz && b < va + 4096 implies #[trigger] byte_copied(
        ops2,
        pt,
        b,
        vaddr,
        file_off,
    ) by {
        if b >= va {
            assert(page_down(b) == va && b % 4096 == b - va) by (nonlinear_arith)
                requires
                    va <= b < va + 4096,
                    va % 4096 == 0,
            ;
            assert(op_places(ops2[ops1.len() as int], pt, b, vaddr, file_off));
        } else {
            assert(byte_copied(ops2, pt, b, vaddr, file_off));
        }
    }
}

proof fn lemma_page_down_mono(a: int, b: int)
    requires
        0 <= a <= b,
    ensures
        page_down(a) <= page_down(b),
{
    assert(a / 4096 * 4096 <= b / 4096 * 4096) by (nonlinear_arith)
        requires
            0 <= a <= b,
    ;
}


/// Offset of program header `i`.
pub open spec fn ph_off(e: Seq<u8>, i: int) -> int {
    le64(e, 32) + i * le16(e, 54)
}

/// Program header `i` lies inside the file.
pub open spec fn ph_in_file(e: Seq<u8>, i: int) -> bool {
    ph_off(e, i) + 56 <= e.len()
}

pub open spec fn ph_type(e: Seq<u8>, i: int) -> int {
    le32(e, ph_off(e, i))
}

pub open spec fn ph_flags(e: Seq<u8>, i: int) -> int {
    le32(e, ph_off(e, i) + 4)
}

pub open spec fn ph_vaddr(e: Seq<u8>, i: int) -> int {
    le64(e, ph_off(e, i) + 16)
}

pub open spec fn ph_memsz(e: Seq<u8>, i: int) -> int {
    le64(e, ph_off(e, i) + 40)
}

/// Page-rounded end of segment `i`.
pub open spec fn ph_end(e: Seq<u8>, i: int) -> int {
    page_down(ph_vaddr(e, i) + ph_memsz(e, i) + 4095)
}

/// Highest page-rounded end over the loadable segments among the first
/// `n` program headers (0 if none).
pub open spec fn max_end(e: Seq<u8>, n: int) -> int
    decreases n,
{
    if n <= 0 {
        0
    } else {
        let m = max_end(e, n - 1);
        if ph_type(e, n - 1) == 1 && ph_end(e, n - 1) > m {
            ph_end(e, n - 1)
        } else {
            m
        }
    }
}

/// Every loadable segment among the first `n` headers is mapped with
/// its permission.
pub open spec fn segments_mapped(pt: &PageTable, e: Seq<u8>, n: int) -> bool {
    forall|i: int|
        0 <= i < n && ph_type(e, i) == 1 ==> #[trigger] range_mapped(
            pt,
            page_down(ph_vaddr(e, i)),
            ph_end(e, i),
            phdr_perm_spec(ph_flags(e, i) as u32),
        )
}

pub open spec fn ph_offset(e: Seq<u8>, i: int) -> int {
    le64(e, ph_off(e, i) + 8)
}

pub open spec fn ph_filesz(e: Seq<u8>, i: int) -> int {
    le64(e, ph_off(e, i) + 32)
}

/// Segment `i` fits below `MAXVA` and its file bytes lie in the file.
pub open spec fn ph_fits(e: Seq<u8>, i: int) -> bool {
    segment_fits(ph_vaddr(e, i), ph_memsz(e, i), ph_filesz(e, i), ph_offset(e, i), e.len() as int)
}

/// Pages taken by the loadable segments among the first `n` headers.
pub open spec fn load_pages(e: Seq<u8>, n: int) -> int
    decreases n,
{
    if n <= 0 {
        0
    } else {
        load_pages(e, n - 1) + if ph_type(e, n - 1) == 1 {
            span_pages(ph_vaddr(e, n - 1), ph_memsz(e, n - 1))
        } else {
            0
        }
    }
}

/// A well-formed image: a valid header, every program header inside
/// the file, every loadable segment fitting, and no page shared by two
/// loadable segments.
pub open spec fn load_fits(e: Seq<u8>) -> bool {
    &&& header_error(e) is None
    &&& forall|i: int| 0 <= i < le16(e, 56) ==> #[trigger] ph_in_file(e, i)
    &&& forall|i: int| 0 <= i < le16(e, 56) && ph_type(e, i) == 1 ==> #[trigger] ph_fits(e, i)
    &&& forall|i: int, j: int|
        #![trigger ph_end(e, i), ph_end(e, j)]
        0 <= i < j < le16(e, 56) && ph_type(e, i) == 1 && ph_type(e, j) == 1 ==> ph_end(e, i) <= page_down(
            ph_vaddr(e, j),
        ) || ph_end(e, j) <= page_down(ph_vaddr(e, i))
}

/// Nothing is mapped in `pt` where the loadable segments among headers
/// `[from, n)` go.
pub open spec fn segments_unmapped(pt: &PageTable, e: Seq<u8>, from: int, n: int) -> bool {
    forall|i: int, b: u64|
        #![trigger ph_end(e, i), pt.lookup(b)]
        from <= i < n && ph_type(e, i) == 1 && page_down(ph_vaddr(e, i)) <= b < ph_end(e, i) ==> pt.lookup(
            b,
        ) is None
}

/// Address `b` lies in one of the loadable segments among the first
/// `n` headers.
pub open spec fn in_segment(e: Seq<u8>, n: int, b: u64) -> bool {
    exists|i: int| 0 <= i < n && ph_type(e, i) == 1 && page_down(ph_vaddr(e, i)) <= b < #[trigger] ph_end(e, i)
}

/// Every file byte of each loadable segment among the first `n`
/// headers that falls inside the segment's pages gets written by some
/// order of `ops`.
pub open spec fn image_copied(ops: Seq<CopyOp>, pt: &PageTable, e: Seq<u8>, n: int) -> bool {
    forall|i: int|
        0 <= i < n && ph_type(e, i) == 1 ==> #[trigger] file_bytes_copied(
            ops,
            pt,
            ph_vaddr(e, i),
            ph_filesz(e, i),
            ph_offset(e, i),
            ph_end(e, i),
        )
}

/// Copy order `op` writes file bytes of one loadable segment among the
/// first `n` headers, and nothing else.
pub open spec fn op_from_image(op: CopyOp, pt: &PageTable, e: Seq<u8>, n: int) -> bool {
    exists|i: int|
        0 <= i < n && ph_type(e, i) == 1 && #[trigger] op_in_segment(
            op,
            pt,
            ph_vaddr(e, i),
            ph_filesz(e, i),
            ph_offset(e, i),
        )
}

/// The copy plan of an image: complete, and writing segment bytes only.
pub open spec fn image_plan(ops: Seq<CopyOp>, pt: &PageTable, e: Seq<u8>, n: int) -> bool {
    &&& image_copied(ops, pt, e, n)
    &&& forall|k: int| 0 <= k < ops.len() ==> #[trigger] op_from_image(ops[k], pt, e, n)
}

/// A copy plan survives a page table that keeps the old translations.
pub proof fn lemma_plan_kept(ops: Seq<CopyOp>, a: &PageTable, c: &PageTable, e: Seq<u8>, n: int)
    requires
        keeps_mapped(a, c),
        image_plan(ops, a, e, n),
    ensures
        image_plan(ops, c, e, n),
{
    assert forall|i: int| 0 <= i < n && ph_type(e, i) == 1 implies #[trigger] file_bytes_copied(
        ops,
        c,
        ph_vaddr(e, i),
        ph_filesz(e, i),
        ph_offset(e, i),
        ph_end(e, i),
    ) by {
        lemma_bytes_kept(ops, a, c, ph_vaddr(e, i), ph_filesz(e, i), ph_offset(e, i), ph_end(e, i));
    }
    assert forall|k: int| 0 <= k < ops.len() implies #[trigger] op_from_image(ops[k], c, e, n) by {
        assert(op_from_image(ops[k], a, e, n));
        let i = choose|i: int|
            0 <= i < n && ph_type(e, i) == 1 && #[trigger] op_in_segment(
                ops[k],
                a,
                ph_vaddr(e, i),
                ph_filesz(e, i),
                ph_offset(e, i),
            );
        lemma_op_kept(ops[k], a, c, ph_vaddr(e, i), ph_filesz(e, i), ph_offset(e, i));
    }
}

/// The plan for the first `n` headers, extended by the orders of
/// header `n`: for a loadable one, its coverage and its orders (those
/// past the old plan's length); for another, nothing.
proof fn lemma_plan_step(old_ops: Seq<CopyOp>, ops: Seq<CopyOp>, pt: &PageTable, e: Seq<u8>, n: int)
    requires
        0 <= n,
        old_ops.len() <= ops.len(),
        ops.subrange(0, old_ops.len() as int) == old_ops,
        image_plan(old_ops, pt, e, n),
        ph_type(e, n) != 1 ==> ops == old_ops,
        ph_type(e, n) == 1 ==> file_bytes_copied(ops, pt, ph_vaddr(e, n), ph_filesz(e, n), ph_offset(e, n), ph_end(e, n)),
        ph_type(e, n) == 1 ==> forall|k: int|
            old_ops.len() <= k < ops.len() ==> #[trigger] op_in_segment(
                ops[k],
                pt,
                ph_vaddr(e, n),
                ph_filesz(e, n),
                ph_offset(e, n),
            ),
    ensures
        image_plan(ops, pt, e, n + 1),
{
    assert forall|i: int| 0 <= i < n + 1 && ph_type(e, i) == 1 implies #[trigger] file_bytes_copied(
        ops,
        pt,
        ph_vaddr(e, i),
        ph_filesz(e, i),
        ph_offset(e, i),
        ph_end(e, i),
    ) by {
        if i < n {
            lemma_bytes_more(old_ops, ops, pt, ph_vaddr(e, i), ph_filesz(e, i), ph_offset(e, i), ph_end(e, i));
        }
    }
    assert forall|k: int| 0 <= k < ops.len() implies #[trigger] op_from_image(ops[k], pt, e, n + 1) by {
        if k < old_ops.len() {
            assert(ops[k] == ops.subrange(0, old_ops.len() as int)[k]);
            assert(op_from_image(old_ops[k], pt, e, n));
            let i = choose|i: int|
                0 <= i < n && ph_type(e, i) == 1 && #[trigger] op_in_segment(
                    old_ops[k],
                    pt,
                    ph_vaddr(e, i),
                    ph_filesz(e, i),
                    ph_offset(e, i),
                );
            assert(op_in_segment(ops[k], pt, ph_vaddr(e, i), ph_filesz(e, i), ph_offset(e, i)));
        } else {
            assert(op_in_segment(ops[k], pt, ph_vaddr(e, n), ph_filesz(e, n), ph_offset(e, n)));
        }
    }
}

/// Segment pages are always user pages.
proof fn lemma_phdr_perm_user(f: u32)
    ensures
        phdr_perm_spec(f) & 8 != 0,
{
    assert((8u32 | (if f & 4 != 0 { 1u32 } else { 0u32 }) | (if f & 2 != 0 { 2u32 } else { 0u32 }) | (if f & 1 != 0 {
        4u32
    } else {
        0u32
    })) & 8 != 0) by (bit_vector);
}

/// More headers take at least as many pages.
pub proof fn lemma_load_pages_mono(e: Seq<u8>, a: int, b: int)
    requires
        0 <= a <= b,
    ensures
        load_pages(e, a) <= load_pages(e, b),
    decreases b - a,
{
    if a < b {
        lemma_load_pages_mono(e, a, b - 1);
        if ph_type(e, b - 1) == 1 {
            let v = ph_vaddr(e, b - 1);
            let m = ph_memsz(e, b - 1);
            assert(v >= 0 && m >= 0);
            lemma_page_down_mono(v, v + m + 4095);
            assert(span_pages(v, m) >= 0) by (nonlinear_arith)
                requires
                    page_down(v) <= page_down(v + m + 4095),
                    span_pages(v, m) == (page_down(v + m + 4095) - page_down(v)) / 4096,
            ;
        }
    }
}

/// Parses `elf` and maps every PT_LOAD segment into `pt`, each page on
/// a fresh frame from `alloc`. Returns the entry point, the page-rounded
/// highest VA any segment reaches, and the file bytes to copy into the
/// new frames.
pub fn load_program<A: FrameAllocator>(pt: &mut PageTable, alloc: &mut A, elf: &[u8]) -> (r: Result<
    (u64, u64, Vec<CopyOp>),
    ElfError,
>)
    requires
        old(pt).wf(),
        alloc_ready(old(pt), old(alloc)),
    ensures
        final(pt).wf(),
        alloc_ready(final(pt), final(alloc)),
        final(pt).root() == old(pt).root(),
        header_error(elf@) is Some ==> r == Err::<(u64, u64, Vec<CopyOp>), ElfError>(header_error(elf@)->0)
            && *final(pt) == *old(pt) && final(alloc).frames() == old(alloc).frames(),
        match r {
            Ok((entry, max_va, ops)) => {
                &&& header_error(elf@) is None
                &&& entry == le64(elf@, 24)
                &&& max_va == max_end(elf@, le16(elf@, 56))
                &&& copies_ok(ops@, elf@.len() as int)
                &&& image_plan(ops@, final(pt), elf@, le16(elf@, 56))
                &&& forall|i: int| 0 <= i < le16(elf@, 56) ==> #[trigger] ph_in_file(elf@, i)
                &&& segments_mapped(final(pt), elf@, le16(elf@, 56))
                &&& forall|b: u64| #[trigger] old(pt).lookup(b) is Some ==> final(pt).lookup(b) == old(pt).lookup(b)
                &&& forall|b: u64| !in_segment(elf@, le16(elf@, 56), b) ==> #[trigger] final(pt).lookup(b) == old(
                    pt,
                ).lookup(b)
                &&& final(alloc).frames().len() + 3 * load_pages(elf@, le16(elf@, 56)) >= old(alloc).frames().len()
                &&& final(alloc).frames().len() <= old(alloc).frames().len()
                &&& final(alloc).frames() == old(alloc).frames().subrange(0, final(alloc).frames().len() as int)
                &&& owned(final(pt)) == owned(old(pt)).add(taken(old(alloc).frames(), final(alloc).frames()).to_multiset())
            },
            Err(e) => header_error(elf@) is None ==> (e == ElfError::Oom || e == ElfError::MapFailed || e
                == ElfError::Truncated),
        },
        load_fits(elf@) && segments_unmapped(old(pt), elf@, 0, le16(elf@, 56)) && old(alloc).frames().len() >= 3
            * load_pages(elf@, le16(elf@, 56)) ==> r is Ok,
{
    let flen: usize = elf.len();
    if flen < 64 {
        return Err(ElfError::Truncated);
    }
    if !(elf[0] == 0x7f && elf[1] == 0x45 && elf[2] == 0x4c && elf[3] == 0x46) {
        return Err(ElfError::NotElf);
    }
    let machine: u16 = get_u16(elf, 18);
    if machine != EXPECTED_MACHINE {
        return Err(ElfError::WrongArch);
    }
    let entry: u64 = get_u64(elf, 24);
    let phoff: u64 = get_u64(elf, 32);
    let phentsize: u16 = get_u16(elf, 54);
    let phnum: u16 = get_u16(elf, 56);
    let mut ops: Vec<CopyOp> = Vec::new();
    let mut max_va: u64 = 0;
    let mut i: u16 = 0;
    let ghost pt0 = *pt;
    let ghost owed = load_fits(elf@) && segments_unmapped(&pt0, elf@, 0, phnum as int) && alloc.frames().len() >= 3
        * load_pages(elf@, phnum as int);
    proof {
        broadcast use vstd::multiset::group_multiset_axioms;
        broadcast use vstd::seq_lib::group_seq_properties;

        assert(Seq::<u64>::empty().to_multiset() =~= vstd::multiset::Multiset::<u64>::empty());
        assert(alloc.frames() =~= alloc.frames().subrange(0, alloc.frames().len() as int));
        assert(taken(alloc.frames(), alloc.frames()) =~= Seq::<u64>::empty());
        assert(owned(pt).add(Seq::<u64>::empty().to_multiset()) =~= owned(pt));
        if owed {
            assert(segments_unmapped(pt, elf@, 0, phnum as int));
        }
    }
    while i < phnum
        invariant
            pt.wf(),
            alloc_ready(pt, alloc),
            pt.root() == pt0.root(),
            pt0 == *old(pt),
            header_error(elf@) is None,
            flen == elf@.len(),
            entry == le64(elf@, 24),
            phoff == le64(elf@, 32),
            phentsize == le16(elf@, 54),
            phnum == le16(elf@, 56),
            i <= phnum,
            copies_ok(ops@, elf@.len() as int),
            image_plan(ops@, pt, elf@, i as int),
            max_va == max_end(elf@, i as int),
            max_va <= MAXVA,
            forall|b: u64| #[trigger] pt0.lookup(b) is Some ==> pt.lookup(b) == pt0.lookup(b),
            forall|j: int| 0 <= j < i ==> #[trigger] ph_in_file(elf@, j),
            segments_mapped(pt, elf@, i as int),
            owed == (load_fits(elf@) && segments_unmapped(&pt0, elf@, 0, phnum as int) && old(alloc).frames().len()
                >= 3 * load_pages(elf@, phnum as int)),
            owed ==> segments_unmapped(pt, elf@, i as int, phnum as int),
            forall|b: u64| !in_segment(elf@, i as int, b) ==> #[trigger] pt.lookup(b) == pt0.lookup(b),
            alloc.frames().len() + 3 * load_pages(elf@, i as int) >= old(alloc).frames().len(),
            alloc.frames().len() <= old(alloc).frames().len(),
            alloc.frames() == old(alloc).frames().subrange(0, alloc.frames().len() as int),
            owned(pt) == owned(&pt0).add(taken(old(alloc).frames(), alloc.frames()).to_multiset()),
            owed ==> alloc.frames().len() >= 3 * (load_pages(elf@, phnum as int) - load_pages(elf@, i as int)),
        decreases phnum - i,
    {
        proof {
            assert((i as u64) * (phentsize as u64) <= 65535 * 65535) by (nonlinear_arith)
                requires
                    i <= 65535,
                    phentsize <= 65535,
            ;
        }
        let prod: u64 = (i as u64) * (phentsize as u64);
        proof {
            if owed {
                assert(ph_in_file(elf@, i as int));
            }
        }
        if phoff > flen as u64 || prod > flen as u64 - phoff || 56 > flen as u64 - phoff - prod {
            return Err(ElfError::Truncated);
        }
        let off: usize = (phoff + prod) as usize;
        proof {
            assert(off == ph_off(elf@, i as int));
        }
        let p_type: u32 = get_u32(elf, off);
        if p_type == PT_LOAD {
            let p_flags: u32 = get_u32(elf, off + 4);
            let file_off: u64 = get_u64(elf, off + 8);
            let vaddr: u64 = get_u64(elf, off + 16);
            let filesz: u64 = get_u64(elf, off + 32);
            let memsz: u64 = get_u64(elf, off + 40);
            let perm = phdr_perms(p_flags);
            let ghost before = *pt;
            let ghost fr_before = alloc.frames();
            let ghost ops_before = ops@;
            proof {
                lemma_phdr_perm_user(p_flags);
            }
            proof {
                assert(ph_end(elf@, i as int) == page_down(vaddr + memsz + 4095));
                assert(load_pages(elf@, i + 1) == load_pages(elf@, i as int) + span_pages(vaddr as int, memsz as int));
                if owed {
                    assert(ph_fits(elf@, i as int));
                    lemma_load_pages_mono(elf@, i + 1, phnum as int);
                    assert forall|b: u64| page_down(vaddr as int) <= b < page_down(vaddr + memsz + 4095) implies #[trigger] pt.lookup(
                        b,
                    ) is None by {
                        assert(ph_end(elf@, i as int) == page_down(vaddr + memsz + 4095));
                    }
                }
            }
            let end = match load_segment(pt, alloc, elf, vaddr, memsz, filesz, file_off, perm, &mut ops) {
                Err(e) => return Err(e),
                Ok(end) => end,
            };
            proof {
                lemma_plan_kept(ops_before, &before, pt, elf@, i as int);
                assert(ph_vaddr(elf@, i as int) == vaddr && ph_filesz(elf@, i as int) == filesz && ph_offset(elf@, i as int)
                    == file_off && ph_end(elf@, i as int) == end);
                lemma_plan_step(ops_before, ops@, pt, elf@, i as int);
            }
            proof {
                broadcast use vstd::multiset::group_multiset_axioms;

                lemma_taken_trans(old(alloc).frames(), fr_before, alloc.frames());
                assert(owned(pt) =~= owned(&pt0).add(taken(old(alloc).frames(), alloc.frames()).to_multiset()));
                assert forall|b: u64| !in_segment(elf@, i + 1, b) implies #[trigger] pt.lookup(b) == pt0.lookup(b) by {
                    if in_segment(elf@, i as int, b) {
                        let j = choose|j: int|
                            0 <= j < i && ph_type(elf@, j) == 1 && page_down(ph_vaddr(elf@, j)) <= b < #[trigger] ph_end(
                                elf@,
                                j,
                            );
                        assert(0 <= j < i + 1 && ph_type(elf@, j) == 1 && page_down(ph_vaddr(elf@, j)) <= b < ph_end(elf@, j));
                    }
                    if page_down(vaddr as int) <= b < end {
                        assert(0 <= i < i + 1 && ph_type(elf@, i as int) == 1 && page_down(ph_vaddr(elf@, i as int)) <= b
                            < ph_end(elf@, i as int));
                    }
                    assert(pt.lookup(b) == before.lookup(b));
                }
                if owed {
                    assert forall|j: int, b: u64|
                        #![trigger ph_end(elf@, j), pt.lookup(b)]
                        i + 1 <= j < phnum && ph_type(elf@, j) == 1 && page_down(ph_vaddr(elf@, j)) <= b < ph_end(
                            elf@,
                            j,
                        ) implies pt.lookup(b) is None by {
                        assert(before.lookup(b) is None);
                        assert(ph_end(elf@, i as int) <= page_down(ph_vaddr(elf@, j)) || ph_end(elf@, j) <= page_down(
                            ph_vaddr(elf@, i as int),
                        ));
                        assert(pt.lookup(b) == before.lookup(b));
                    }
                }
            }
            proof {
                assert forall|b: u64| #[trigger] pt0.lookup(b) is Some implies pt.lookup(b) == pt0.lookup(b) by {
                    assert(before.lookup(b) == pt0.lookup(b));
                    if page_down(vaddr as int) <= b < end {
                        assert(before.lookup(b) is None);
                    }
                }
                assert forall|j: int|
                    0 <= j < i + 1 && ph_type(elf@, j) == 1 implies #[trigger] range_mapped(
                    pt,
                    page_down(ph_vaddr(elf@, j)),
                    ph_end(elf@, j),
                    phdr_perm_spec(ph_flags(elf@, j) as u32),
                ) by {
                    if j < i {
                        assert(range_mapped(&before, page_down(ph_vaddr(elf@, j)), ph_end(elf@, j), phdr_perm_spec(ph_flags(elf@, j) as u32)));
                        assert forall|b: u64| page_down(ph_vaddr(elf@, j)) <= b < ph_end(elf@, j) implies #[trigger] pt.lookup(b) is Some && pt.lookup(b).unwrap().1 == phdr_perm_spec(ph_flags(elf@, j) as u32) & 15 by {
                            assert(before.lookup(b) is Some);
                            if page_down(vaddr as int) <= b < end {
                                assert(before.lookup(b) is None);
                            }
                            assert(pt.lookup(b) == before.lookup(b));
                        }
                    }
                }
            }
            if end > max_va {
                max_va = end;
            }
        }
        proof {
            if p_type != PT_LOAD {
                assert(ops@.subrange(0, ops@.len() as int) =~= ops@);
                lemma_plan_step(ops@, ops@, pt, elf@, i as int);
            }
            assert(ph_in_file(elf@, i as int));
            assert forall|b: u64| !in_segment(elf@, i + 1, b) implies #[trigger] pt.lookup(b) == pt0.lookup(b) by {
                if in_segment(elf@, i as int, b) {
                    let j = choose|j: int|
                        0 <= j < i && ph_type(elf@, j) == 1 && page_down(ph_vaddr(elf@, j)) <= b < #[trigger] ph_end(
                            elf@,
                            j,
                        );
                    assert(0 <= j < i + 1 && ph_type(elf@, j) == 1 && page_down(ph_vaddr(elf@, j)) <= b < ph_end(elf@, j));
                }
            }
            assert(load_pages(elf@, i + 1) == load_pages(elf@, i as int) + if ph_type(elf@, i as int) == 1 {
                span_pages(ph_vaddr(elf@, i as int), ph_memsz(elf@, i as int))
            } else {
                0
            });
        }
        i = i + 1;
    }
    Ok((entry, max_va, ops))
}

} // verus!
