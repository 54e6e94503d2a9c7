//! Sv39 three-level page table over an explicit model of its own
//! table pages.
//!
//! Every table page is 512 eight-byte entries; page `i` has physical
//! address `pas[i]`, level `levels[i]` (2 = root, 0 = leaf tables) and
//! entries `entries[512 * i .. 512 * i + 512]`. Non-leaf entries of a
//! level-`l` page point at level `l - 1` pages, and no two entries
//! point at the same page, so the pages form a tree under the root.

use vstd::prelude::*;

use crate::hal::{FrameAllocator, PtePerm, VmError};
use crate::riscv::{branch_bits, lemma_leaf_roundtrip, leaf_bits, pte_pa_spec, pte_perm_spec, Pte, MAXVA, SATP_SV39};

verus! {

/// Bytes mapped by one level-2 entry.
pub const L2_SPAN: u64 = 0x4000_0000;
/// Bytes mapped by one level-1 entry.
pub const L1_SPAN: u64 = 0x20_0000;

/// Slot of `va` in its level-`l` table.
pub open spec fn vpn(va: u64, l: int) -> int {
    if l == 2 {
        (va / 0x4000_0000) as int % 512
    } else if l == 1 {
        (va / 0x20_0000) as int % 512
    } else {
        (va / 4096) as int % 512
    }
}

/// The frames can become table pages: page-aligned and below 2^56.
pub open spec fn frames_fit(frames: Seq<u64>) -> bool {
    forall|i: int| 0 <= i < frames.len() ==> #[trigger] frames[i] % 4096 == 0 && frames[i] < 0x100_0000_0000_0000
}

/// Owned Sv39 page table.
pub struct PageTable {
    root_pa: u64,
    pas: Vec<u64>,
    levels: Vec<u8>,
    entries: Vec<u64>,
}

impl PageTable {
    pub closed spec fn npages(&self) -> int {
        self.pas@.len() as int
    }

    pub closed spec fn ent(&self, i: int, k: int) -> u64 {
        self.entries@[512 * i + k]
    }

    /// Index of the table page at physical address `pa`, if any.
    pub closed spec fn find(&self, pa: u64) -> Option<int> {
        if exists|i: int| 0 <= i < self.pas@.len() && self.pas@[i] == pa {
            Some(choose|i: int| 0 <= i < self.pas@.len() && self.pas@[i] == pa)
        } else {
            None
        }
    }

    /// Page that the non-leaf entry `(i, k)` points at, if any.
    pub closed spec fn child(&self, i: int, k: int) -> Option<int> {
        let e = self.ent(i, k);
        if e & 1 == 0 || e & 14 != 0 {
            None
        } else {
            self.find(pte_pa_spec(e))
        }
    }

    /// Physical page tables this page table occupies.
    pub closed spec fn table_pas(&self) -> Seq<u64> {
        self.pas@
    }

    pub closed spec fn wf(&self) -> bool {
        &&& self.pas@.len() >= 1
        &&& self.levels@.len() == self.pas@.len()
        &&& self.entries@.len() == 512 * self.pas@.len()
        &&& self.pas@[0] == self.root_pa
        &&& self.levels@[0] == 2
        &&& self.pas@.no_duplicates()
        &&& forall|i: int| 0 <= i < self.pas@.len() ==> #[trigger] self.pas@[i] % 4096 == 0
        &&& forall|i: int| 0 <= i < self.pas@.len() ==> #[trigger] self.levels@[i] <= 2
        &&& forall|i: int, k: int|
            0 <= i < self.pas@.len() && 0 <= k < 512 && self.levels@[i] >= 1 && #[trigger] self.ent(i, k) & 1 != 0
                ==> self.ent(i, k) & 14 == 0 && (exists|j: int|
                0 <= j < self.pas@.len() && self.pas@[j] == pte_pa_spec(self.ent(i, k)) && self.levels@[j] + 1
                    == self.levels@[i])
        &&& forall|i1: int, k1: int, i2: int, k2: int|
            0 <= i1 < self.pas@.len() && 0 <= k1 < 512 && 0 <= i2 < self.pas@.len() && 0 <= k2 < 512
                && self.levels@[i1] >= 1 && self.levels@[i2] >= 1 && #[trigger] self.ent(i1, k1) & 1 != 0
                && #[trigger] self.ent(i2, k2) & 1 != 0 && pte_pa_spec(self.ent(i1, k1)) == pte_pa_spec(
                self.ent(i2, k2)) ==> i1 == i2 && k1 == k2
    }

    /// None of `frames` is one of this table's pages.
    pub closed spec fn disjoint_from(&self, frames: Seq<u64>) -> bool {
        forall|i: int| 0 <= i < frames.len() ==> !self.pas@.contains(#[trigger] frames[i])
    }

    /// What the MMU makes of `va`: the physical address and the
    /// R/W/X/U permission bits, or `None` (page fault).
    pub closed spec fn lookup(&self, va: u64) -> Option<(u64, u32)> {
        if va >= MAXVA {
            None
        } else {
            let e2 = self.ent(0, vpn(va, 2));
            if e2 & 1 == 0 {
                None
            } else if e2 & 14 != 0 {
                Some(((pte_pa_spec(e2) + va % L2_SPAN) as u64, pte_perm_spec(e2)))
            } else {
                match self.find(pte_pa_spec(e2)) {
                    None => None,
                    Some(i1) => {
                        let e1 = self.ent(i1, vpn(va, 1));
                        if e1 & 1 == 0 {
                            None
                        } else if e1 & 14 != 0 {
                            Some(((pte_pa_spec(e1) + va % L1_SPAN) as u64, pte_perm_spec(e1)))
                        } else {
                            match self.find(pte_pa_spec(e1)) {
                                None => None,
                                Some(i0) => {
                                    let e0 = self.ent(i0, vpn(va, 0));
                                    if e0 & 1 == 0 {
                                        None
                                    } else {
                                        Some(((pte_pa_spec(e0) + va % 4096) as u64, pte_perm_spec(e0)))
                                    }
                                },
                            }
                        }
                    },
                }
            }
        }
    }

    /// Index of the leaf table that holds the entry for `va`, if the
    /// path to it exists.
    pub closed spec fn leaf_table(&self, va: u64) -> Option<int> {
        match self.child(0, vpn(va, 2)) {
            None => None,
            Some(i1) => self.child(i1, vpn(va, 1)),
        }
    }

    /// Physical address of the root table.
    pub fn root_pa(&self) -> (r: u64)
        ensures
            r == self.root(),
    {
        self.root_pa
    }

    pub closed spec fn root(&self) -> u64 {
        self.root_pa
    }

    /// A fresh table with no mappings; its root comes from `alloc`.
    pub fn new<A: FrameAllocator>(alloc: &mut A) -> (r: Result<Self, VmError>)
        requires
            old(alloc).frames_wf(),
            frames_fit(old(alloc).frames()),
            old(alloc).frames().no_duplicates(),
        ensures
            final(alloc).frames_wf(),
            frames_fit(final(alloc).frames()),
            final(alloc).frames().no_duplicates(),
            old(alloc).frames().len() == 0 <==> r is Err,
            r is Err ==> r == Err::<Self, VmError>(VmError::Oom) && final(alloc).frames() == old(alloc).frames(),
            r matches Ok(pt) ==> {
                &&& pt.wf()
                &&& pt.root() == old(alloc).frames().last()
                &&& final(alloc).frames() == old(alloc).frames().drop_last()
                &&& pt.disjoint_from(final(alloc).frames())
                &&& forall|va: u64| #[trigger] pt.lookup(va) is None
                &&& pt.table_pas() == seq![pt.root()]
                &&& pt.user_frames().len() == 0
            },
    {
        match alloc.alloc_zeroed() {
            None => Err(VmError::Oom),
            Some(pa) => {
                let mut entries: Vec<u64> = Vec::new();
                let mut k: usize = 0;
                while k < 512
                    invariant
                        k <= 512,
                        entries@.len() == k,
                        forall|j: int| 0 <= j < k ==> entries@[j] == 0,
                    decreases 512 - k,
                {
                    entries.push(0);
                    k = k + 1;
                }
                let mut pas: Vec<u64> = Vec::new();
                pas.push(pa);
                let mut levels: Vec<u8> = Vec::new();
                levels.push(2);
                let pt = PageTable { root_pa: pa, pas, levels, entries };
                proof {
                    assert(pt.pas@ == seq![pa]);
                    assert(old(alloc).frames().last() == pa);
                    assert forall|va: u64| #[trigger] pt.lookup(va) is None by {
                        if va < MAXVA {
                            assert(pt.ent(0, vpn(va, 2)) == 0);
                            lemma_zero_entry();
                        }
                    }
                    assert forall|i: int, k: int|
                        0 <= i < pt.pas@.len() && 0 <= k < 512 && pt.levels@[i] >= 1 implies #[trigger] pt.ent(i, k) & 1 == 0 by {
                        assert(pt.ent(i, k) == 0);
                        lemma_zero_entry();
                    }
                    assert forall|x: int| 0 <= x < 512 implies !#[trigger] pt.is_user_leaf(x) by {
                        assert(pt.entries@[x] == 0);
                        lemma_zero_entry();
                    }
                    pt.lemma_uf_tail(0, 512);
                    assert(pt.user_frames_upto(0) =~= Seq::<u64>::empty());
                    let fr = final(alloc).frames();
                    assert forall|i: int| 0 <= i < fr.len() implies !pt.pas@.contains(#[trigger] fr[i]) by {
                        assert(fr[i] == old(alloc).frames()[i]);
                        if pt.pas@.contains(fr[i]) {
                            assert(fr[i] == pa);
                            assert(old(alloc).frames()[i] == old(alloc).frames()[old(alloc).frames().len() - 1]);
                        }
                    }
                }
                Ok(pt)
            },
        }
    }
}


/// An all-zero entry is not valid.
proof fn lemma_zero_entry()
    ensures
        0u64 & 1 == 0,
{
    assert(0u64 & 1 == 0) by (bit_vector);
}

/// Two addresses below `MAXVA` with the same three slot indices lie on
/// the same page.
pub proof fn lemma_vpn_same_page(a: u64, b: u64)
    requires
        a < MAXVA,
        b < MAXVA,
        vpn(a, 2) == vpn(b, 2),
        vpn(a, 1) == vpn(b, 1),
        vpn(a, 0) == vpn(b, 0),
    ensures
        a / 4096 == b / 4096,
{
    vstd::arithmetic::div_mod::lemma_div_denominator(a as int, 4096, 512);
    vstd::arithmetic::div_mod::lemma_div_denominator(a as int, 2097152, 512);
    vstd::arithmetic::div_mod::lemma_div_denominator(b as int, 4096, 512);
    vstd::arithmetic::div_mod::lemma_div_denominator(b as int, 2097152, 512);
    let qa = a / 4096;
    let qb = b / 4096;
    assert(qa / 512 == a / 0x20_0000);
    assert(qb / 512 == b / 0x20_0000);
    assert((qa / 512) / 512 == a / 0x4000_0000);
    assert((qb / 512) / 512 == b / 0x4000_0000);
    assert(a / 0x4000_0000 < 512);
    assert(b / 0x4000_0000 < 512);
}

/// Facts about the entries built for a table pointer.
pub proof fn lemma_branch_bits(pa: u64)
    requires
        pa % 4096 == 0,
        pa < 0x100_0000_0000_0000,
    ensures
        branch_bits(pa) & 1 != 0,
        branch_bits(pa) & 14 == 0,
        pte_pa_spec(branch_bits(pa)) == pa,
{
    assert(pa % 4096 == 0 && pa < 0x100_0000_0000_0000u64 ==> (((((pa >> 12u64) << 10u64) | 1u64) >> 10u64) & 0xfff_ffff_ffffu64) << 12u64 == pa) by (bit_vector);
    assert((((pa >> 12u64) << 10u64) | 1u64) & 1u64 != 0) by (bit_vector);
    assert((((pa >> 12u64) << 10u64) | 1u64) & 14u64 == 0) by (bit_vector);
}

impl PageTable {
    proof fn lemma_find(&self, pa: u64, j: int)
        requires
            self.wf(),
            0 <= j < self.pas@.len(),
            self.pas@[j] == pa,
        ensures
            self.find(pa) == Some(j),
    {
        let c = choose|i: int| 0 <= i < self.pas@.len() && self.pas@[i] == pa;
        assert(self.pas@[c] == self.pas@[j]);
    }

    /// A valid entry of a non-leaf table points at a table one level down.
    proof fn lemma_child_level(&self, i: int, k: int) -> (j: int)
        requires
            self.wf(),
            0 <= i < self.pas@.len(),
            0 <= k < 512,
            self.levels@[i] >= 1,
            self.ent(i, k) & 1 != 0,
        ensures
            0 <= j < self.pas@.len(),
            self.ent(i, k) & 14 == 0,
            self.find(pte_pa_spec(self.ent(i, k))) == Some(j),
            self.child(i, k) == Some(j),
            self.levels@[j] + 1 == self.levels@[i],
    {
        let j = choose|j: int|
            0 <= j < self.pas@.len() && self.pas@[j] == pte_pa_spec(self.ent(i, k)) && self.levels@[j] + 1
                == self.levels@[i];
        self.lemma_find(pte_pa_spec(self.ent(i, k)), j);
        j
    }

    /// Index of the table page at `pa`.
    fn find_page(&self, pa: u64) -> (r: Option<usize>)
        requires
            self.wf(),
        ensures
            match r {
                None => self.find(pa) is None,
                Some(i) => self.find(pa) == Some(i as int) && i < self.pas@.len(),
            },
    {
        let mut i: usize = 0;
        while i < self.pas.len()
            invariant
                self.wf(),
                i <= self.pas@.len(),
                forall|j: int| 0 <= j < i ==> self.pas@[j] != pa,
            decreases self.pas@.len() - i,
        {
            if self.pas[i] == pa {
                proof {
                    self.lemma_find(pa, i as int);
                }
                return Some(i);
            }
            i = i + 1;
        }
        None
    }

    /// Entry `k` of table page `i`.
    fn entry(&self, i: usize, k: usize) -> (r: Pte)
        requires
            self.wf(),
            i < self.pas@.len(),
            k < 512,
        ensures
            r.0 == self.ent(i as int, k as int),
    {
        let _n: usize = self.entries.len();
        Pte(self.entries[512 * i + k])
    }

    /// Translates `va` to its physical address and permission, or
    /// `None` if it is unmapped or out of range.
    pub fn translate(&self, va: u64) -> (r: Option<(u64, PtePerm)>)
        requires
            self.wf(),
        ensures
            match r {
                None => self.lookup(va) is None,
                Some((pa, p)) => self.lookup(va) == Some((pa, p.0)),
            },
    {
        if va >= MAXVA {
            return None;
        }
        let e2 = self.entry(0, ((va / L2_SPAN) % 512) as usize);
        if !e2.is_valid() {
            return None;
        }
        if e2.is_leaf() {
            let p: u64 = e2.pa();
            return Some((p + va % L2_SPAN, e2.flags_perm()));
        }
        let i1 = match self.find_page(e2.pa()) {
            None => return None,
            Some(i) => i,
        };
        let e1 = self.entry(i1, ((va / L1_SPAN) % 512) as usize);
        if !e1.is_valid() {
            return None;
        }
        if e1.is_leaf() {
            let p: u64 = e1.pa();
            return Some((p + va % L1_SPAN, e1.flags_perm()));
        }
        let i0 = match self.find_page(e1.pa()) {
            None => return None,
            Some(i) => i,
        };
        let e0 = self.entry(i0, ((va / 4096) % 512) as usize);
        if !e0.is_valid() {
            return None;
        }
        let p: u64 = e0.pa();
        Some((p + va % 4096, e0.flags_perm()))
    }

    /// Index of the leaf table holding `va`'s entry, without allocating.
    fn walk(&self, va: u64) -> (r: Option<usize>)
        requires
            self.wf(),
            va < MAXVA,
        ensures
            match r {
                None => self.leaf_table(va) is None,
                Some(i) => self.leaf_table(va) == Some(i as int) && i < self.pas@.len()
                    && self.levels@[i as int] == 0,
            },
    {
        let e2 = self.entry(0, ((va / L2_SPAN) % 512) as usize);
        if !e2.is_valid() || e2.is_leaf() {
            return None;
        }
        let i1 = match self.find_page(e2.pa()) {
            None => return None,
            Some(i) => i,
        };
        proof {
            let j = self.lemma_child_level(0, vpn(va, 2));
        }
        let e1 = self.entry(i1, ((va / L1_SPAN) % 512) as usize);
        if !e1.is_valid() || e1.is_leaf() {
            return None;
        }
        let i0 = match self.find_page(e1.pa()) {
            None => return None,
            Some(i) => i,
        };
        proof {
            let j = self.lemma_child_level(i1 as int, vpn(va, 1));
        }
        Some(i0)
    }
}

impl PageTable {
    /// Under `wf`, `lookup` is read off the leaf table's entry.
    proof fn lemma_lookup_leaf(&self, va: u64)
        requires
            self.wf(),
            va < MAXVA,
        ensures
            self.leaf_table(va) is None ==> self.lookup(va) is None,
            self.leaf_table(va) matches Some(i0) ==> {
                &&& 0 <= i0 < self.pas@.len()
                &&& self.levels@[i0] == 0
                &&& self.lookup(va) == (if self.ent(i0, vpn(va, 0)) & 1 == 0 {
                    None
                } else {
                    Some(
                        (
                            (pte_pa_spec(self.ent(i0, vpn(va, 0))) + va % 4096) as u64,
                            pte_perm_spec(self.ent(i0, vpn(va, 0))),
                        ),
                    )
                })
            },
    {
        let k2 = vpn(va, 2);
        if self.ent(0, k2) & 1 != 0 {
            let i1 = self.lemma_child_level(0, k2);
            let k1 = vpn(va, 1);
            if self.ent(i1, k1) & 1 != 0 {
                let i0 = self.lemma_child_level(i1, k1);
            }
        }
    }

    /// Writing entry `x` into `va`'s slot of its leaf table changes the
    /// translation of `va`'s page only.
    proof fn lemma_leaf_write(&self, new: PageTable, va: u64, x: u64)
        requires
            self.wf(),
            va < MAXVA,
            self.leaf_table(va) is Some,
            new.pas@ == self.pas@,
            new.levels@ == self.levels@,
            new.root_pa == self.root_pa,
            new.entries@ == self.entries@.update(512 * self.leaf_table(va)->0 + vpn(va, 0), x),
        ensures
            new.wf(),
            forall|b: u64| #[trigger] new.leaf_table(b) == self.leaf_table(b),
            forall|b: u64|
                #[trigger] new.lookup(b) == (if b < MAXVA && b / 4096 == va / 4096 {
                    if x & 1 == 0 {
                        None
                    } else {
                        Some(((pte_pa_spec(x) + b % 4096) as u64, pte_perm_spec(x)))
                    }
                } else {
                    self.lookup(b)
                }),
    {
        let i0 = self.leaf_table(va)->0;
        let k0 = vpn(va, 0);
        self.lemma_lookup_leaf(va);
        assert(forall|i: int, k: int|
            0 <= i < self.pas@.len() && 0 <= k < 512 && self.levels@[i] >= 1 ==> #[trigger] new.ent(i, k)
                == self.ent(i, k));
        assert forall|i: int, k: int|
            0 <= i < new.pas@.len() && 0 <= k < 512 && new.levels@[i] >= 1 && #[trigger] new.ent(i, k) & 1
                != 0 implies new.ent(i, k) & 14 == 0 && (exists|j: int|
            0 <= j < new.pas@.len() && new.pas@[j] == pte_pa_spec(new.ent(i, k)) && new.levels@[j] + 1
                == new.levels@[i]) by {
            assert(new.ent(i, k) == self.ent(i, k));
        }
        assert forall|i1: int, k1: int, i2: int, k2: int|
            0 <= i1 < new.pas@.len() && 0 <= k1 < 512 && 0 <= i2 < new.pas@.len() && 0 <= k2 < 512
                && new.levels@[i1] >= 1 && new.levels@[i2] >= 1 && #[trigger] new.ent(i1, k1) & 1 != 0
                && #[trigger] new.ent(i2, k2) & 1 != 0 && pte_pa_spec(new.ent(i1, k1)) == pte_pa_spec(
                new.ent(i2, k2)) implies i1 == i2 && k1 == k2 by {
            assert(new.ent(i1, k1) == self.ent(i1, k1));
            assert(new.ent(i2, k2) == self.ent(i2, k2));
        }
        assert(new.wf());
        assert forall|b: u64| #[trigger] new.leaf_table(b) == self.leaf_table(b) by {
            let b2 = vpn(b, 2);
            assert(new.ent(0, b2) == self.ent(0, b2));
            assert(new.find(pte_pa_spec(self.ent(0, b2))) == self.find(pte_pa_spec(self.ent(0, b2))));
            if self.ent(0, b2) & 1 != 0 {
                let i1 = self.lemma_child_level(0, b2);
                let b1 = vpn(b, 1);
                assert(new.ent(i1, b1) == self.ent(i1, b1));
                assert(new.find(pte_pa_spec(self.ent(i1, b1))) == self.find(pte_pa_spec(self.ent(i1, b1))));
            }
        }
        assert forall|b: u64|
            #[trigger] new.lookup(b) == (if b < MAXVA && b / 4096 == va / 4096 {
                if x & 1 == 0 {
                    None
                } else {
                    Some(((pte_pa_spec(x) + b % 4096) as u64, pte_perm_spec(x)))
                }
            } else {
                self.lookup(b)
            }) by {
            if b < MAXVA {
                self.lemma_lookup_leaf(b);
                new.lemma_lookup_leaf(b);
                assert(new.leaf_table(b) == self.leaf_table(b));
                if b / 4096 == va / 4096 {
                    assert(vpn(b, 0) == vpn(va, 0));
                    assert(vpn(b, 1) == vpn(va, 1)) by {
                        vstd::arithmetic::div_mod::lemma_div_denominator(b as int, 4096, 512);
                        vstd::arithmetic::div_mod::lemma_div_denominator(va as int, 4096, 512);
                    }
                    assert(vpn(b, 2) == vpn(va, 2)) by {
                        vstd::arithmetic::div_mod::lemma_div_denominator(b as int, 4096, 262144);
                        vstd::arithmetic::div_mod::lemma_div_denominator(va as int, 4096, 262144);
                    }
                    assert(self.leaf_table(b) == self.leaf_table(va));
                    assert(new.ent(i0, vpn(b, 0)) == x);
                } else {
                    match self.leaf_table(b) {
                        None => {},
                        Some(j0) => {
                            if j0 == i0 && vpn(b, 0) == k0 {
                                self.lemma_same_leaf_same_page(va, b);
                            }
                            assert(new.ent(j0, vpn(b, 0)) == self.ent(j0, vpn(b, 0)));
                        },
                    }
                }
            }
        }
    }

    /// Leaf tables form a tree: the same leaf table reached for two
    /// addresses with the same leaf slot means the same page.
    proof fn lemma_same_leaf_same_page(&self, a: u64, b: u64)
        requires
            self.wf(),
            a < MAXVA,
            b < MAXVA,
            self.leaf_table(a) is Some,
            self.leaf_table(a) == self.leaf_table(b),
            vpn(a, 0) == vpn(b, 0),
        ensures
            a / 4096 == b / 4096,
    {
        let a2 = vpn(a, 2);
        let b2 = vpn(b, 2);
        let ia = self.lemma_child_level(0, a2);
        let ib = self.lemma_child_level(0, b2);
        let a1 = vpn(a, 1);
        let b1 = vpn(b, 1);
        let ja = self.lemma_child_level(ia, a1);
        let jb = self.lemma_child_level(ib, b1);
        assert(ja == jb);
        assert(pte_pa_spec(self.ent(ia, a1)) == self.pas@[ja]);
        assert(pte_pa_spec(self.ent(ib, b1)) == self.pas@[jb]);
        assert(ia == ib && a1 == b1);
        assert(pte_pa_spec(self.ent(0, a2)) == self.pas@[ia]);
        assert(a2 == b2);
        lemma_vpn_same_page(a, b);
    }
}


impl PageTable {
    /// `new` is `old` with frame `f` appended as an empty table page one
    /// level below page `i`, and entry `(i, k)` pointing at it.
    proof fn lemma_attach(&self, new: PageTable, i: int, k: int, f: u64)
        requires
            self.wf(),
            0 <= i < self.pas@.len(),
            0 <= k < 512,
            self.levels@[i] >= 1,
            self.ent(i, k) & 1 == 0,
            f % 4096 == 0,
            f < 0x100_0000_0000_0000,
            !self.pas@.contains(f),
            new.root_pa == self.root_pa,
            new.pas@ == self.pas@.push(f),
            new.levels@ == self.levels@.push((self.levels@[i] - 1) as u8),
            new.entries@.len() == self.entries@.len() + 512,
            forall|x: int|
                0 <= x < self.entries@.len() && x != 512 * i + k ==> #[trigger] new.entries@[x]
                    == self.entries@[x],
            new.entries@[512 * i + k] == branch_bits(f),
            forall|x: int| 0 <= x < 512 ==> #[trigger] new.entries@[self.entries@.len() + x] == 0,
        ensures
            new.wf(),
            new.child(i, k) == Some(self.pas@.len() as int),
            forall|i2: int, k2: int|
                0 <= i2 < self.pas@.len() && 0 <= k2 < 512 && (i2 != i || k2 != k) ==> #[trigger] new.ent(
                    i2,
                    k2,
                ) == self.ent(i2, k2),
            forall|i2: int, k2: int|
                0 <= i2 < self.pas@.len() && 0 <= k2 < 512 && self.levels@[i2] >= 1 && (i2 != i || k2
                    != k) ==> #[trigger] new.child(i2, k2) == self.child(i2, k2),
            forall|k2: int| 0 <= k2 < 512 ==> #[trigger] new.ent(self.pas@.len() as int, k2) == 0,
            forall|va: u64| #[trigger] new.lookup(va) == self.lookup(va),
    {
        let n = self.pas@.len() as int;
        lemma_branch_bits(f);
        lemma_zero_entry();
        assert forall|i2: int, k2: int|
            0 <= i2 < n && 0 <= k2 < 512 && (i2 != i || k2 != k) implies #[trigger] new.ent(i2, k2)
                == self.ent(i2, k2) by {
            assert(512 * i2 + k2 < 512 * n) by (nonlinear_arith)
                requires
                    0 <= i2 < n,
                    0 <= k2 < 512,
            ;
            assert(512 * i2 + k2 != 512 * i + k) by (nonlinear_arith)
                requires
                    0 <= k2 < 512,
                    0 <= k < 512,
                    i2 != i || k2 != k,
            ;
        }
        assert forall|k2: int| 0 <= k2 < 512 implies #[trigger] new.ent(n, k2) == 0 by {
            assert(512 * n + k2 == self.entries@.len() + k2);
        }
        assert(new.ent(i, k) == branch_bits(f));
        assert forall|p: u64| self.pas@.contains(p) implies #[trigger] new.find(p) == self.find(p) by {
            let j = choose|j: int| 0 <= j < n && self.pas@[j] == p;
            self.lemma_find(p, j);
            assert(new.pas@[j] == p);
            let c = choose|c: int| 0 <= c < new.pas@.len() && new.pas@[c] == p;
            assert(c != n);
        }
        assert(new.pas@[n] == f);
        assert(new.find(f) == Some(n)) by {
            let c = choose|c: int| 0 <= c < new.pas@.len() && new.pas@[c] == f;
            if c != n {
                assert(self.pas@[c] == f);
            }
        }
        assert(new.pas@.no_duplicates()) by {
            assert forall|a: int, b: int| 0 <= a < new.pas@.len() && 0 <= b < new.pas@.len() && a != b implies new.pas@[a] != new.pas@[b] by {
                if a < n && b < n {
                } else if a == n {
                    assert(self.pas@.contains(new.pas@[b]));
                } else {
                    assert(self.pas@.contains(new.pas@[a]));
                }
            }
        }
        // Every valid entry of an old non-leaf page points into the old pages.
        assert forall|i2: int, k2: int|
            0 <= i2 < n && 0 <= k2 < 512 && self.levels@[i2] >= 1 && #[trigger] self.ent(i2, k2) & 1
                != 0 implies self.pas@.contains(pte_pa_spec(self.ent(i2, k2))) by {
            let j = self.lemma_child_level(i2, k2);
        }
        assert forall|i2: int, k2: int|
            0 <= i2 < new.pas@.len() && 0 <= k2 < 512 && new.levels@[i2] >= 1 && #[trigger] new.ent(
                i2,
                k2,
            ) & 1 != 0 implies new.ent(i2, k2) & 14 == 0 && (exists|j: int|
            0 <= j < new.pas@.len() && new.pas@[j] == pte_pa_spec(new.ent(i2, k2)) && new.levels@[j] + 1
                == new.levels@[i2]) by {
            if i2 == n {
                assert(new.ent(n, k2) == 0);
            } else if i2 == i && k2 == k {
                assert(new.pas@[n] == pte_pa_spec(new.ent(i2, k2)));
            } else {
                assert(new.ent(i2, k2) == self.ent(i2, k2));
                let j = self.lemma_child_level(i2, k2);
                assert(new.pas@[j] == self.pas@[j]);
            }
        }
        assert forall|i1: int, k1: int, i2: int, k2: int|
            0 <= i1 < new.pas@.len() && 0 <= k1 < 512 && 0 <= i2 < new.pas@.len() && 0 <= k2 < 512
                && new.levels@[i1] >= 1 && new.levels@[i2] >= 1 && #[trigger] new.ent(i1, k1) & 1 != 0
                && #[trigger] new.ent(i2, k2) & 1 != 0 && pte_pa_spec(new.ent(i1, k1)) == pte_pa_spec(
                new.ent(i2, k2)) implies i1 == i2 && k1 == k2 by {
            if i1 == n {
                assert(new.ent(n, k1) == 0);
            } else if i2 == n {
                assert(new.ent(n, k2) == 0);
            } else if i1 == i && k1 == k {
                if !(i2 == i && k2 == k) {
                    assert(new.ent(i2, k2) == self.ent(i2, k2));
                    assert(self.pas@.contains(pte_pa_spec(self.ent(i2, k2))));
                }
            } else if i2 == i && k2 == k {
                assert(new.ent(i1, k1) == self.ent(i1, k1));
                assert(self.pas@.contains(pte_pa_spec(self.ent(i1, k1))));
            } else {
                assert(new.ent(i1, k1) == self.ent(i1, k1));
                assert(new.ent(i2, k2) == self.ent(i2, k2));
            }
        }
        assert(new.wf());
        assert forall|i2: int, k2: int|
            0 <= i2 < n && 0 <= k2 < 512 && self.levels@[i2] >= 1 && (i2 != i || k2 != k) implies #[trigger] new.child(
                i2,
                k2,
            ) == self.child(i2, k2) by {
            assert(new.ent(i2, k2) == self.ent(i2, k2));
            if self.ent(i2, k2) & 1 != 0 {
                let j = self.lemma_child_level(i2, k2);
                assert(self.pas@.contains(pte_pa_spec(self.ent(i2, k2))));
            }
        }
        assert forall|va: u64| #[trigger] new.lookup(va) == self.lookup(va) by {
            if va < MAXVA {
                let k2 = vpn(va, 2);
                let e2 = self.ent(0, k2);
                if i == 0 && k == k2 {
                    assert(new.ent(n, vpn(va, 1)) == 0);
                } else {
                    assert(new.ent(0, k2) == e2);
                    if e2 & 1 != 0 && e2 & 14 == 0 {
                        let i1 = self.lemma_child_level(0, k2);
                        assert(self.pas@.contains(pte_pa_spec(e2)));
                        let k1 = vpn(va, 1);
                        let e1 = self.ent(i1, k1);
                        if i1 == i && k1 == k {
                            assert(new.ent(n, vpn(va, 0)) == 0);
                        } else {
                            assert(new.ent(i1, k1) == e1);
                            if e1 & 1 != 0 && e1 & 14 == 0 {
                                let i0 = self.lemma_child_level(i1, k1);
                                assert(self.pas@.contains(pte_pa_spec(e1)));
                                assert(i0 != i);
                                assert(new.ent(i0, vpn(va, 0)) == self.ent(i0, vpn(va, 0)));
                            }
                        }
                    }
                }
            }
        }
    }
}


/// Allocator frames that may become table pages of `pt`.
pub open spec fn alloc_ready<A: FrameAllocator>(pt: &PageTable, alloc: &A) -> bool {
    &&& alloc.frames_wf()
    &&& frames_fit(alloc.frames())
    &&& alloc.frames().no_duplicates()
    &&& pt.disjoint_from(alloc.frames())
}

/// An allocator that kept a prefix of a ready allocator's frames is
/// ready too.
pub proof fn lemma_ready_prefix<A: FrameAllocator>(pt: &PageTable, a0: &A, a1: &A)
    requires
        alloc_ready(pt, a0),
        a1.frames_wf(),
        a1.frames().len() <= a0.frames().len(),
        forall|i: int| 0 <= i < a1.frames().len() ==> #[trigger] a1.frames()[i] == a0.frames()[i],
    ensures
        alloc_ready(pt, a1),
{
    let f0 = a0.frames();
    let f1 = a1.frames();
    assert forall|i: int, j: int| 0 <= i < f1.len() && 0 <= j < f1.len() && i != j implies f1[i] != f1[j] by {
        assert(f1[i] == f0[i] && f1[j] == f0[j]);
    }
    assert forall|i: int| 0 <= i < f1.len() implies !pt.pas@.contains(#[trigger] f1[i]) by {
        assert(f1[i] == f0[i]);
    }
    assert forall|i: int| 0 <= i < f1.len() implies #[trigger] f1[i] % 4096 == 0 && f1[i] < 0x100_0000_0000_0000 by {
        assert(f1[i] == f0[i]);
    }
}

/// Readiness depends on the table pages only.
pub proof fn lemma_ready_same_pages<A: FrameAllocator>(pt0: &PageTable, pt1: &PageTable, a: &A)
    requires
        alloc_ready(pt0, a),
        pt1.table_pas() == pt0.table_pas(),
    ensures
        alloc_ready(pt1, a),
{
}

/// The table pages grew by the frames that the allocator handed out,
/// in the order it handed them out.
pub open spec fn grew_by(old_pas: Seq<u64>, new_pas: Seq<u64>, old_frames: Seq<u64>, new_frames: Seq<u64>) -> bool {
    &&& new_frames.len() <= old_frames.len()
    &&& new_frames == old_frames.subrange(0, new_frames.len() as int)
    &&& new_pas.len() == old_pas.len() + (old_frames.len() - new_frames.len())
    &&& new_pas.subrange(0, old_pas.len() as int) == old_pas
    &&& forall|m: int|
        0 <= m < old_frames.len() - new_frames.len() ==> #[trigger] new_pas[old_pas.len() + m]
            == old_frames[old_frames.len() - 1 - m]
}

impl PageTable {
    /// Index of the page that entry `(i, k)` points at, allocating and
    /// linking an empty one if the entry is invalid.
    fn ensure_child<A: FrameAllocator>(&mut self, i: usize, k: usize, alloc: &mut A) -> (r: Option<usize>)
        requires
            old(self).wf(),
            alloc_ready(old(self), old(alloc)),
            i < old(self).pas@.len(),
            k < 512,
            old(self).levels@[i as int] >= 1,
        ensures
            final(self).wf(),
            alloc_ready(final(self), final(alloc)),
            final(self).root_pa == old(self).root_pa,
            grew_by(old(self).pas@, final(self).pas@, old(alloc).frames(), final(alloc).frames()),
            final(self).pas@.len() <= old(self).pas@.len() + 1,
            forall|va: u64| #[trigger] final(self).lookup(va) == old(self).lookup(va),
            forall|i2: int, k2: int|
                0 <= i2 < old(self).pas@.len() && 0 <= k2 < 512 && old(self).levels@[i2] >= 1 && (i2 != i
                    || k2 != k) ==> #[trigger] final(self).child(i2, k2) == old(self).child(i2, k2),
            forall|x: int| 0 <= x < old(self).pas@.len() ==> #[trigger] final(self).levels@[x] == old(self).levels@[x],
            final(self).user_frames() == old(self).user_frames(),
            match r {
                None => old(alloc).frames().len() == 0 && final(alloc).frames() == old(alloc).frames()
                    && *final(self) == *old(self),
                Some(j) => {
                    &&& final(self).child(i as int, k as int) == Some(j as int)
                    &&& j < final(self).pas@.len()
                    &&& final(self).levels@[j as int] + 1 == old(self).levels@[i as int]
                },
            },
    {
        let e = self.entry(i, k);
        if e.is_valid() {
            proof {
                let j = self.lemma_child_level(i as int, k as int);
            }
            let p = e.pa();
            let j = self.find_page(p);
            proof {
                assert(self.pas@.subrange(0, self.pas@.len() as int) =~= self.pas@);
                assert(alloc.frames().subrange(0, alloc.frames().len() as int) =~= alloc.frames());
            }
            return j;
        }
        let f = match alloc.alloc_zeroed() {
            None => {
                proof {
                    assert(self.pas@.subrange(0, self.pas@.len() as int) =~= self.pas@);
                    assert(alloc.frames().subrange(0, alloc.frames().len() as int) =~= alloc.frames());
                }
                return None;
            },
            Some(f) => f,
        };
        let ghost old_pt = *self;
        let ghost fr = old(alloc).frames();
        proof {
            assert(fr[fr.len() - 1] == f);
            assert(f % 4096 == 0 && f < 0x100_0000_0000_0000);
            assert(!self.pas@.contains(f));
        }
        let lv: u8 = self.levels[i] - 1;
        let n: usize = self.pas.len();
        let elen: usize = self.entries.len();
        proof {
            assert(512 * i + k < elen) by (nonlinear_arith)
                requires
                    i < n,
                    elen == 512 * n,
                    k < 512,
            ;
        }
        self.pas.push(f);
        self.levels.push(lv);
        let mut c: usize = 0;
        while c < 512
            invariant
                c <= 512,
                self.root_pa == old_pt.root_pa,
                self.pas@ == old_pt.pas@.push(f),
                self.levels@ == old_pt.levels@.push(lv),
                self.entries@.len() == old_pt.entries@.len() + c,
                forall|x: int| 0 <= x < old_pt.entries@.len() ==> #[trigger] self.entries@[x] == old_pt.entries@[x],
                forall|x: int| 0 <= x < c ==> #[trigger] self.entries@[old_pt.entries@.len() + x] == 0,
            decreases 512 - c,
        {
            self.entries.push(0);
            c = c + 1;
        }
        let b = Pte::make_branch(f);
        let x: usize = 512 * i + k;
        let ghost pre = self.entries@;
        self.entries[x] = b.0;
        proof {
            old_pt.lemma_attach(*self, i as int, k as int, f);
            let nf = final(alloc).frames();
            assert(nf == fr.drop_last());
            assert forall|x: int| 0 <= x < nf.len() implies !self.pas@.contains(#[trigger] nf[x]) by {
                assert(nf[x] == fr[x]);
                assert(!old_pt.pas@.contains(fr[x]));
                if self.pas@.contains(nf[x]) {
                    let y = choose|y: int| 0 <= y < self.pas@.len() && self.pas@[y] == nf[x];
                    if y < n {
                        assert(old_pt.pas@[y] == nf[x]);
                    } else {
                        assert(fr[x] == fr[fr.len() - 1]);
                    }
                }
            }
            assert(self.pas@.subrange(0, n as int) =~= old_pt.pas@);
            assert(nf =~= fr.subrange(0, nf.len() as int));
            let ol = old_pt.entries@.len() as int;
            assert forall|y: int| 0 <= y < ol implies #[trigger] old_pt.is_user_leaf(y) == self.is_user_leaf(y) && (
            old_pt.is_user_leaf(y) ==> pte_pa_spec(old_pt.entries@[y]) == pte_pa_spec(self.entries@[y])) by {
                assert(y / 512 < n) by (nonlinear_arith)
                    requires
                        0 <= y < ol,
                        ol == 512 * n,
                ;
                assert(self.levels@[y / 512] == old_pt.levels@[y / 512]);
                if y == x {
                    assert(x as int / 512 == i) by (nonlinear_arith)
                        requires
                            x == 512 * i + k,
                            k < 512,
                    ;
                }
            }
            old_pt.lemma_uf_agree(self, ol);
            assert forall|y: int| ol <= y < self.entries@.len() implies !#[trigger] self.is_user_leaf(y) by {
                assert(pre[old_pt.entries@.len() + (y - ol)] == 0);
                assert(self.entries@[y] == pre[y]);
                lemma_zero_entry();
            }
            self.lemma_uf_tail(ol, self.entries@.len() as int);
        }
        Some(n)
    }

    /// Index of the leaf table for `va`, allocating the missing
    /// intermediate tables.
    fn walk_alloc<A: FrameAllocator>(&mut self, va: u64, alloc: &mut A) -> (r: Option<usize>)
        requires
            old(self).wf(),
            alloc_ready(old(self), old(alloc)),
            va < MAXVA,
        ensures
            final(self).wf(),
            alloc_ready(final(self), final(alloc)),
            final(self).root_pa == old(self).root_pa,
            grew_by(old(self).pas@, final(self).pas@, old(alloc).frames(), final(alloc).frames()),
            final(self).pas@.len() <= old(self).pas@.len() + 2,
            forall|b: u64| #[trigger] final(self).lookup(b) == old(self).lookup(b),
            final(self).user_frames() == old(self).user_frames(),
            match r {
                None => final(alloc).frames().len() == 0 && old(alloc).frames().len() < 2,
                Some(j) => final(self).leaf_table(va) == Some(j as int) && j < final(self).pas@.len(),
            },
    {
        let k2 = ((va / L2_SPAN) % 512) as usize;
        let ghost s0 = *self;
        let ghost f0 = alloc.frames();
        let j1 = match self.ensure_child(0, k2, alloc) {
            None => return None,
            Some(j) => j,
        };
        let ghost s1 = *self;
        let ghost f1 = alloc.frames();
        let k1 = ((va / L1_SPAN) % 512) as usize;
        let j0 = match self.ensure_child(j1, k1, alloc) {
            None => return None,
            Some(j) => j,
        };
        proof {
            if j1 < s0.pas@.len() {
                assert(s0.levels@[j1 as int] == 1);
            }
            assert(self.child(0, k2 as int) == s1.child(0, k2 as int));
            assert(self.leaf_table(va) == Some(j0 as int));
            let fr2 = alloc.frames();
            assert(s1.pas@.subrange(0, s0.pas@.len() as int) == s0.pas@);
            assert(self.pas@.subrange(0, s1.pas@.len() as int) == s1.pas@);
            assert(self.pas@.subrange(0, s0.pas@.len() as int) =~= s0.pas@) by {
                assert forall|x: int| 0 <= x < s0.pas@.len() implies self.pas@[x] == s0.pas@[x] by {
                    assert(self.pas@.subrange(0, s1.pas@.len() as int)[x] == self.pas@[x]);
                    assert(s1.pas@.subrange(0, s0.pas@.len() as int)[x] == s1.pas@[x]);
                }
            }
            assert(fr2 =~= f0.subrange(0, fr2.len() as int)) by {
                assert forall|x: int| 0 <= x < fr2.len() implies fr2[x] == f0[x] by {
                    assert(f1.subrange(0, fr2.len() as int)[x] == f1[x]);
                    assert(f0.subrange(0, f1.len() as int)[x] == f0[x]);
                }
            }
            assert forall|m: int| 0 <= m < f0.len() - fr2.len() implies #[trigger] self.pas@[s0.pas@.len() + m]
                == f0[f0.len() - 1 - m] by {
                if m < f0.len() - f1.len() {
                    assert(self.pas@.subrange(0, s1.pas@.len() as int)[s0.pas@.len() + m] == self.pas@[s0.pas@.len() + m]);
                    assert(s1.pas@[s0.pas@.len() + m] == f0[f0.len() - 1 - m]);
                } else {
                    let m2 = m - (f0.len() - f1.len());
                    assert(self.pas@[s1.pas@.len() + m2] == f1[f1.len() - 1 - m2]);
                    assert(f0.subrange(0, f1.len() as int)[f1.len() - 1 - m2] == f0[f1.len() - 1 - m2]);
                }
            }
        }
        Some(j0)
    }
}


/// After mapping `len` bytes at `va` to `pa` with permission bits
/// `perm`, `after` translates like `before` except on that range.
pub open spec fn mapped_prefix(before: &PageTable, after: &PageTable, va: u64, pa: u64, len: int, perm: u32) -> bool {
    forall|b: u64|
        #[trigger] after.lookup(b) == (if va <= b < va + len {
            Some(((pa + (b - va)) as u64, perm & 15))
        } else {
            before.lookup(b)
        })
}

/// `mapped_prefix` over the first `n` pages.
pub open spec fn mapped_pages(before: &PageTable, after: &PageTable, va: u64, pa: u64, n: int, perm: u32) -> bool {
    mapped_prefix(before, after, va, pa, n * 4096, perm)
}

/// Mapping one more page extends a mapped prefix.
proof fn lemma_prefix_step(s0: &PageTable, before: &PageTable, after: &PageTable, va: u64, pa: u64, n: int, perm: u32)
    requires
        0 <= n,
        mapped_pages(s0, before, va, pa, n, perm),
        forall|b: u64|
            #[trigger] after.lookup(b) == (if va + n * 4096 <= b < va + n * 4096 + 4096 {
                Some(((pa + n * 4096 + (b - (va + n * 4096))) as u64, perm & 15))
            } else {
                before.lookup(b)
            }),
    ensures
        mapped_pages(s0, after, va, pa, n + 1, perm),
{
    assert forall|b: u64| #[trigger] after.lookup(b) == (if va <= b < va + (n + 1) * 4096 {
        Some(((pa + (b - va)) as u64, perm & 15))
    } else {
        s0.lookup(b)
    }) by {
        assert((n + 1) * 4096 == n * 4096 + 4096);
        assert(before.lookup(b) == (if va <= b < va + n * 4096 {
            Some(((pa + (b - va)) as u64, perm & 15))
        } else {
            s0.lookup(b)
        }));
        if va + n * 4096 <= b < va + n * 4096 + 4096 {
            assert(after.lookup(b) == Some(((pa + n * 4096 + (b - (va + n * 4096))) as u64, perm & 15)));
            assert(pa + n * 4096 + (b - (va + n * 4096)) == pa + (b - va));
        } else {
            assert(after.lookup(b) == before.lookup(b));
        }
    }
}

/// A step that changes no translation keeps a mapped prefix.
proof fn lemma_prefix_same(s0: &PageTable, before: &PageTable, after: &PageTable, va: u64, pa: u64, n: int, perm: u32)
    requires
        mapped_pages(s0, before, va, pa, n, perm),
        forall|b: u64| #[trigger] after.lookup(b) == before.lookup(b),
    ensures
        mapped_pages(s0, after, va, pa, n, perm),
{
    assert forall|b: u64| #[trigger] after.lookup(b) == (if va <= b < va + n * 4096 {
        Some(((pa + (b - va)) as u64, perm & 15))
    } else {
        s0.lookup(b)
    }) by {
        assert(after.lookup(b) == before.lookup(b));
    }
}

/// `b` lies on the page starting at the aligned address `c`.
pub proof fn lemma_on_page(c: u64, b: u64)
    requires
        c % 4096 == 0,
    ensures
        (c <= b < c + 4096) <==> (b / 4096 == c / 4096),
        c <= b < c + 4096 ==> b % 4096 == b - c,
{
    assert((c <= b < c + 4096) <==> (b / 4096 == c / 4096)) by (nonlinear_arith)
        requires
            c % 4096 == 0,
    ;
    assert(c <= b < c + 4096 ==> b % 4096 == b - c) by (nonlinear_arith)
        requires
            c % 4096 == 0,
    ;
}

impl PageTable {
    /// Maps `[va, va + size)` to `[pa, pa + size)` with `perm`, page by
    /// page, allocating table pages from `alloc` as needed.
    ///
    /// Fails with `Misaligned` unless `va`, `pa` and `size` are page
    /// multiples and `size > 0`; with `OutOfRange` if the range passes
    /// `MAXVA`; with `Remap` at the first page already mapped; with
    /// `Oom` when `alloc` runs dry. Pages mapped before a failure stay
    /// mapped.
    #[verifier::rlimit(60)]
    pub fn map<A: FrameAllocator>(&mut self, va: u64, pa: u64, size: u64, perm: PtePerm, alloc: &mut A) -> (r: Result<(), VmError>)
        requires
            old(self).wf(),
            alloc_ready(old(self), old(alloc)),
            pa + size <= 0x100_0000_0000_0000,
        ensures
            final(self).wf(),
            alloc_ready(final(self), final(alloc)),
            final(self).root() == old(self).root(),
            grew_by(old(self).table_pas(), final(self).table_pas(), old(alloc).frames(), final(alloc).frames()),
            (r == Err::<(), VmError>(VmError::Misaligned)) <==> (va % 4096 != 0 || pa % 4096 != 0 || size
                % 4096 != 0 || size == 0),
            (r == Err::<(), VmError>(VmError::OutOfRange)) <==> (va % 4096 == 0 && pa % 4096 == 0 && size
                % 4096 == 0 && size != 0 && va + size > MAXVA),
            r == Err::<(), VmError>(VmError::Misaligned) || r == Err::<(), VmError>(VmError::OutOfRange)
                ==> *final(self) == *old(self) && final(alloc).frames() == old(alloc).frames(),
            final(alloc).frames().len() + 2 * (size / 4096) >= old(alloc).frames().len(),
            r is Ok ==> mapped_prefix(old(self), final(self), va, pa, size as int, perm.0),
            r is Ok ==> forall|m: int|
                0 <= m < size / 4096 ==> #[trigger] old(self).lookup((va + m * 4096) as u64) is None,
            r == Err::<(), VmError>(VmError::Remap) || r == Err::<(), VmError>(VmError::Oom) ==> exists|n: int|
                0 <= n < size / 4096 && #[trigger] mapped_pages(old(self), final(self), va, pa, n, perm.0) && (r
                    == Err::<(), VmError>(VmError::Remap) ==> old(self).lookup((va + n * 4096) as u64) is Some),
            r == Err::<(), VmError>(VmError::Oom) ==> final(alloc).frames().len() == 0,
            size == 4096 && r is Err ==> final(self).user_frames() == old(self).user_frames(),
            size == 4096 && r is Ok ==> final(self).user_frames().to_multiset() == (if perm.0 & 8 != 0 {
                old(self).user_frames().to_multiset().insert(pa)
            } else {
                old(self).user_frames().to_multiset()
            }),
            va % 4096 == 0 && pa % 4096 == 0 && size % 4096 == 0 && size != 0 && va + size <= MAXVA
                && old(alloc).frames().len() >= 2 * (size / 4096) && (forall|m: int|
                0 <= m < size / 4096 ==> #[trigger] old(self).lookup((va + m * 4096) as u64) is None) ==> r is Ok,
    {
        proof {
            assert(self.pas@.subrange(0, self.pas@.len() as int) =~= self.pas@);
            assert(alloc.frames().subrange(0, alloc.frames().len() as int) =~= alloc.frames());
        }
        if va % 4096 != 0 || pa % 4096 != 0 || size % 4096 != 0 || size == 0 {
            return Err(VmError::Misaligned);
        }
        if size > MAXVA || va > MAXVA - size {
            return Err(VmError::OutOfRange);
        }
        let end: u64 = va + size;
        let mut cur: u64 = va;
        let mut cpa: u64 = pa;
        let ghost mut n: int = 0;
        let ghost s0 = *self;
        let ghost f0 = alloc.frames();
        while cur < end
            invariant
                self.wf(),
                alloc_ready(self, alloc),
                s0 == *old(self),
                f0 == old(alloc).frames(),
                self.root_pa == s0.root_pa,
                grew_by(s0.pas@, self.pas@, f0, alloc.frames()),
                end == va + size,
                end <= MAXVA,
                va % 4096 == 0,
                pa % 4096 == 0,
                size % 4096 == 0,
                pa + size <= 0x100_0000_0000_0000,
                0 <= n <= size / 4096,
                cur == va + n * 4096,
                cpa == pa + n * 4096,
                alloc.frames().len() + 2 * n >= f0.len(),
                mapped_pages(&s0, self, va, pa, n, perm.0),
                forall|m: int| 0 <= m < n ==> #[trigger] s0.lookup((va + m * 4096) as u64) is None,
                size == 4096 && n == 0 ==> self.user_frames() == s0.user_frames(),
                size == 4096 && n == 1 ==> self.user_frames().to_multiset() == (if perm.0 & 8 != 0 {
                    s0.user_frames().to_multiset().insert(pa)
                } else {
                    s0.user_frames().to_multiset()
                }),
            decreases end - cur,
        {
            let ghost f_before = alloc.frames();
            let ghost p_before = self.pas@;
            let ghost before = *self;
            let res = self.map_page(cur, cpa, perm, alloc);
            proof {
                grew_trans(s0.pas@, p_before, self.pas@, f0, f_before, alloc.frames());
            }
            match res {
                Err(e) => {
                    proof {
                        lemma_prefix_same(&s0, &before, self, va, pa, n, perm.0);
                        assert(n < size / 4096) by (nonlinear_arith)
                            requires
                                va + n * 4096 < va + size,
                                size % 4096 == 0,
                        ;
                        assert(before.lookup(cur) == s0.lookup(cur));
                        assert(cur == (va + n * 4096) as u64);
                    }
                    return Err(e);
                },
                Ok(()) => {},
            }
            proof {
                lemma_prefix_step(&s0, &before, self, va, pa, n, perm.0);
                assert(before.lookup(cur) == s0.lookup(cur));
                assert(cur == (va + n * 4096) as u64);
            }
            cur = cur + 4096;
            cpa = cpa + 4096;
            proof {
                n = n + 1;
            }
        }
        Ok(())
    }

    /// Maps the one page at `cur` to `cpa`.
    #[verifier::spinoff_prover]
    fn map_page<A: FrameAllocator>(&mut self, cur: u64, cpa: u64, perm: PtePerm, alloc: &mut A) -> (r: Result<(), VmError>)
        requires
            old(self).wf(),
            alloc_ready(old(self), old(alloc)),
            cur < MAXVA,
            cur % 4096 == 0,
            cpa % 4096 == 0,
            cpa + 4096 <= 0x100_0000_0000_0000,
        ensures
            final(self).wf(),
            alloc_ready(final(self), final(alloc)),
            final(self).root_pa == old(self).root_pa,
            grew_by(old(self).pas@, final(self).pas@, old(alloc).frames(), final(alloc).frames()),
            final(self).pas@.len() <= old(self).pas@.len() + 2,
            r is Err ==> final(self).user_frames() == old(self).user_frames(),
            r is Ok ==> final(self).user_frames().to_multiset() == (if perm.0 & 8 != 0 {
                old(self).user_frames().to_multiset().insert(cpa)
            } else {
                old(self).user_frames().to_multiset()
            }),
            match r {
                Ok(()) => old(self).lookup(cur) is None && forall|b: u64|
                    #[trigger] final(self).lookup(b) == (if cur <= b < cur + 4096 {
                        Some(((cpa + (b - cur)) as u64, perm.0 & 15))
                    } else {
                        old(self).lookup(b)
                    }),
                Err(e) => {
                    &&& forall|b: u64| #[trigger] final(self).lookup(b) == old(self).lookup(b)
                    &&& (e == VmError::Oom && final(alloc).frames().len() == 0 && old(alloc).frames().len() < 2
                        || e == VmError::Remap && old(self).lookup(cur) is Some)
                },
            },
    {
        let j = match self.walk_alloc(cur, alloc) {
            None => return Err(VmError::Oom),
            Some(j) => j,
        };
        let k0: usize = ((cur / 4096) % 512) as usize;
        let e = self.entry(j, k0);
        proof {
            self.lemma_lookup_leaf(cur);
        }
        if e.is_valid() {
            return Err(VmError::Remap);
        }
        let leaf = Pte::make_leaf(cpa, perm);
        let ghost before = *self;
        let elen: usize = self.entries.len();
        proof {
            assert(512 * j + k0 < elen) by (nonlinear_arith)
                requires
                    j < self.pas@.len(),
                    elen == 512 * self.pas@.len(),
                    k0 < 512,
            ;
            assert(self.lookup(cur) is None);
        }
        let x: usize = 512 * j + k0;
        self.entries[x] = leaf.0;
        proof {
            before.lemma_leaf_write(*self, cur, leaf.0);
            lemma_leaf_roundtrip(cpa, perm);
            assert forall|b: u64| #[trigger] self.lookup(b) == (if cur <= b < cur + 4096 {
                Some(((cpa + (b - cur)) as u64, perm.0 & 15))
            } else {
                before.lookup(b)
            }) by {
                lemma_on_page(cur, b);
            }
            assert(self.pas@ == before.pas@);
            let el = before.entries@.len() as int;
            assert(x as int / 512 == j) by (nonlinear_arith)
                requires
                    x == 512 * j + k0,
                    k0 < 512,
            ;
            assert(self.levels@[j as int] == 0);
            assert(!before.is_user_leaf(x as int));
            let lb = leaf.0;
            assert(pte_perm_spec(lb) & 8 != 0 <==> lb & 16 != 0) by (bit_vector);
            let pv = perm.0;
            assert((pv & 15) & 8 == pv & 8) by (bit_vector);
            assert(self.is_user_leaf(x as int) == (perm.0 & 8 != 0));
            if perm.0 & 8 != 0 {
                before.lemma_uf_gain(self, el, x as int);
            } else {
                before.lemma_uf_agree(self, el);
            }
        }
        Ok(())
    }

    /// Clears the leaf entry for `va` and returns the physical page it
    /// mapped, or `None` if `va` was not mapped.
    pub fn unmap_page(&mut self, va: u64) -> (r: Option<u64>)
        requires
            old(self).wf(),
        ensures
            final(self).wf(),
            final(self).root() == old(self).root(),
            final(self).table_pas() == old(self).table_pas(),
            match old(self).lookup(va) {
                None => r is None && *final(self) == *old(self),
                Some((p, _)) => r == Some((p - va % 4096) as u64) && forall|b: u64|
                    #[trigger] final(self).lookup(b) == (if b / 4096 == va / 4096 {
                        None
                    } else {
                        old(self).lookup(b)
                    }),
            },
    {
        if va >= MAXVA {
            return None;
        }
        let j = match self.walk(va) {
            None => {
                proof {
                    self.lemma_lookup_leaf(va);
                }
                return None;
            },
            Some(j) => j,
        };
        let k0: usize = ((va / 4096) % 512) as usize;
        let e = self.entry(j, k0);
        proof {
            self.lemma_lookup_leaf(va);
        }
        if !e.is_valid() {
            return None;
        }
        let p = e.pa();
        let ghost before = *self;
        let elen: usize = self.entries.len();
        proof {
            assert(512 * j + k0 < elen) by (nonlinear_arith)
                requires
                    j < self.pas@.len(),
                    elen == 512 * self.pas@.len(),
                    k0 < 512,
            ;
        }
        let x: usize = 512 * j + k0;
        self.entries[x] = 0;
        proof {
            before.lemma_leaf_write(*self, va, 0);
            lemma_zero_entry();
            assert forall|b: u64| #[trigger] self.lookup(b) == (if b / 4096 == va / 4096 {
                None
            } else {
                before.lookup(b)
            }) by {
                if b / 4096 == va / 4096 && b >= MAXVA {
                    assert(b / 4096 < MAXVA / 4096);
                }
            }
        }
        Some(p)
    }
}

impl PageTable {
    /// Two addresses on one page translate alike: both unmapped, or both
    /// mapped with the same permission.
    pub proof fn lemma_same_page_lookup(&self, a: u64, b: u64)
        requires
            self.wf(),
            a / 4096 == b / 4096,
        ensures
            (self.lookup(a) is None) == (self.lookup(b) is None),
            self.lookup(a) is Some ==> self.lookup(a).unwrap().1 == self.lookup(b).unwrap().1,
    {
        if a < MAXVA && b < MAXVA {
            vstd::arithmetic::div_mod::lemma_div_denominator(b as int, 4096, 512);
            vstd::arithmetic::div_mod::lemma_div_denominator(a as int, 4096, 512);
            vstd::arithmetic::div_mod::lemma_div_denominator(b as int, 4096, 262144);
            vstd::arithmetic::div_mod::lemma_div_denominator(a as int, 4096, 262144);
            assert(vpn(a, 0) == vpn(b, 0));
            assert(vpn(a, 1) == vpn(b, 1));
            assert(vpn(a, 2) == vpn(b, 2));
            self.lemma_lookup_leaf(a);
            self.lemma_lookup_leaf(b);
        } else if a < MAXVA {
            assert(a / 4096 < MAXVA / 4096);
        } else if b < MAXVA {
            assert(b / 4096 < MAXVA / 4096);
        }
    }
}

impl PageTable {
    /// A translation lands below 2^56 plus the page offset.
    /// Only addresses below `MAXVA` are ever mapped.
    pub proof fn lemma_lookup_in_range(&self, va: u64)
        ensures
            self.lookup(va) is Some ==> va < MAXVA,
    {
    }

    pub proof fn lemma_lookup_pa_bound(&self, va: u64)
        requires
            self.wf(),
        ensures
            self.lookup(va) matches Some((p, _)) ==> p < 0x100_0000_4000_0000,
    {
        let e2 = self.ent(0, vpn(va, 2));
        assert(pte_pa_spec(e2) < 0x100_0000_0000_0000) by {
            assert(((e2 >> 10u64) & 0xfff_ffff_ffffu64) << 12u64 < 0x100_0000_0000_0000u64) by (bit_vector);
        }
        if va < MAXVA && e2 & 1 != 0 && e2 & 14 == 0 {
            match self.find(pte_pa_spec(e2)) {
                None => {},
                Some(i1) => {
                    let e1 = self.ent(i1, vpn(va, 1));
                    assert(((e1 >> 10u64) & 0xfff_ffff_ffffu64) << 12u64 < 0x100_0000_0000_0000u64) by (bit_vector);
                    if e1 & 1 != 0 && e1 & 14 == 0 {
                        match self.find(pte_pa_spec(e1)) {
                            None => {},
                            Some(i0) => {
                                let e0 = self.ent(i0, vpn(va, 0));
                                assert(((e0 >> 10u64) & 0xfff_ffff_ffffu64) << 12u64 < 0x100_0000_0000_0000u64) by (bit_vector);
                            },
                        }
                    }
                },
            }
        }
    }
}

impl PageTable {
    /// Entry `x` (in table-page order) is a valid user leaf: a valid
    /// entry of a leaf table with the U bit set.
    closed spec fn is_user_leaf(&self, x: int) -> bool {
        &&& self.levels@[x / 512] == 0
        &&& self.entries@[x] & 1 != 0
        &&& self.entries@[x] & 16 != 0
    }

    /// Frames of the user leaves among the first `n` entries, in entry
    /// order.
    closed spec fn user_frames_upto(&self, n: int) -> Seq<u64>
        decreases n,
    {
        if n <= 0 {
            Seq::empty()
        } else {
            self.user_frames_upto(n - 1) + if self.is_user_leaf(n - 1) {
                seq![pte_pa_spec(self.entries@[n - 1])]
            } else {
                Seq::empty()
            }
        }
    }

    /// Frames of every user page this table maps, in entry order.
    pub closed spec fn user_frames(&self) -> Seq<u64> {
        self.user_frames_upto(self.entries@.len() as int)
    }

    proof fn lemma_user_frames_has(&self, x: int, n: int)
        requires
            0 <= x < n,
            self.is_user_leaf(x),
        ensures
            self.user_frames_upto(n).contains(pte_pa_spec(self.entries@[x])),
        decreases n,
    {
        if x == n - 1 {
            let s = self.user_frames_upto(n);
            assert(s[s.len() - 1] == pte_pa_spec(self.entries@[x]));
        } else {
            self.lemma_user_frames_has(x, n - 1);
            let p = self.user_frames_upto(n - 1);
            let i = choose|i: int| 0 <= i < p.len() && p[i] == pte_pa_spec(self.entries@[x]);
            assert(self.user_frames_upto(n)[i] == p[i]);
        }
    }

    /// Two tables whose first `n` entries hold the same user leaves have
    /// the same user frames among them.
    proof fn lemma_uf_agree(&self, q: &PageTable, n: int)
        requires
            0 <= n,
            forall|x: int|
                0 <= x < n ==> #[trigger] self.is_user_leaf(x) == q.is_user_leaf(x) && (self.is_user_leaf(x)
                    ==> pte_pa_spec(self.entries@[x]) == pte_pa_spec(q.entries@[x])),
        ensures
            self.user_frames_upto(n) == q.user_frames_upto(n),
        decreases n,
    {
        if n > 0 {
            self.lemma_uf_agree(q, n - 1);
            assert(self.is_user_leaf(n - 1) == q.is_user_leaf(n - 1));
        }
    }

    /// Entries `[a, b)` holding no user leaf add no user frame.
    proof fn lemma_uf_tail(&self, a: int, b: int)
        requires
            0 <= a <= b,
            forall|x: int| a <= x < b ==> !#[trigger] self.is_user_leaf(x),
        ensures
            self.user_frames_upto(b) == self.user_frames_upto(a),
        decreases b - a,
    {
        if a < b {
            self.lemma_uf_tail(a, b - 1);
            assert(!self.is_user_leaf(b - 1));
            assert(self.user_frames_upto(b) =~= self.user_frames_upto(b - 1));
        }
    }

    /// `q` is `self` with one more user leaf, at entry `x0`.
    proof fn lemma_uf_gain(&self, q: &PageTable, n: int, x0: int)
        requires
            0 <= x0 < n,
            !self.is_user_leaf(x0),
            q.is_user_leaf(x0),
            forall|x: int|
                0 <= x < n && x != x0 ==> #[trigger] self.is_user_leaf(x) == q.is_user_leaf(x) && (self.is_user_leaf(
                    x,
                ) ==> pte_pa_spec(self.entries@[x]) == pte_pa_spec(q.entries@[x])),
        ensures
            q.user_frames_upto(n).to_multiset() == self.user_frames_upto(n).to_multiset().insert(
                pte_pa_spec(q.entries@[x0]),
            ),
        decreases n,
    {
        broadcast use vstd::seq_lib::group_seq_properties;
        broadcast use vstd::multiset::group_multiset_axioms;

        if n - 1 == x0 {
            self.lemma_uf_agree(q, n - 1);
            assert(q.user_frames_upto(n) == q.user_frames_upto(n - 1).push(pte_pa_spec(q.entries@[x0])));
            assert(self.user_frames_upto(n) =~= self.user_frames_upto(n - 1));
        } else {
            self.lemma_uf_gain(q, n - 1, x0);
            assert(self.is_user_leaf(n - 1) == q.is_user_leaf(n - 1));
            if self.is_user_leaf(n - 1) {
                let v = pte_pa_spec(q.entries@[n - 1]);
                assert(q.user_frames_upto(n) == q.user_frames_upto(n - 1).push(v));
                assert(self.user_frames_upto(n) == self.user_frames_upto(n - 1).push(v));
                assert(q.user_frames_upto(n).to_multiset() =~= self.user_frames_upto(n).to_multiset().insert(
                    pte_pa_spec(q.entries@[x0]),
                ));
            } else {
                assert(q.user_frames_upto(n) =~= q.user_frames_upto(n - 1));
                assert(self.user_frames_upto(n) =~= self.user_frames_upto(n - 1));
            }
        }
    }

    /// Takes the table apart: every frame it owns, for the caller to
    /// free — its own table pages, then the frame of each user page it
    /// maps. Pages mapped without the U bit (the trampoline, the
    /// trapframe) belong to someone else and are left out.
    pub fn reap(self) -> (r: Vec<u64>)
        requires
            self.wf(),
        ensures
            r@ == self.table_pas() + self.user_frames(),
            r@.to_multiset() == owned(&self),
            forall|va: u64|
                #[trigger] self.lookup(va) is Some && self.lookup(va).unwrap().1 & 8 != 0 ==> r@.contains(
                    (self.lookup(va).unwrap().0 - va % 4096) as u64,
                ),
    {
        let ghost me = self;
        let PageTable { root_pa: _, pas, levels, entries } = self;
        let mut r = pas;
        let n: usize = entries.len();
        let mut x: usize = 0;
        while x < n
            invariant
                n == entries@.len(),
                entries@ == me.entries@,
                levels@ == me.levels@,
                me.wf(),
                x <= n,
                r@ == me.table_pas() + me.user_frames_upto(x as int),
            decreases n - x,
        {
            let e = Pte(entries[x]);
            let page: usize = x / 512;
            if levels[page] == 0 && e.is_valid() && (e.0 & 16) != 0 {
                let pa = e.pa();
                r.push(pa);
            }
            proof {
                assert(me.is_user_leaf(x as int) == (levels@[x as int / 512] == 0 && e.0 & 1 != 0 && e.0 & 16 != 0));
                assert(r@ =~= me.table_pas() + me.user_frames_upto(x + 1));
            }
            x = x + 1;
        }
        proof {
            assert forall|va: u64|
                #[trigger] me.lookup(va) is Some && me.lookup(va).unwrap().1 & 8 != 0 implies r@.contains(
                (me.lookup(va).unwrap().0 - va % 4096) as u64,
            ) by {
                me.lemma_lookup_in_range(va);
                me.lemma_lookup_leaf(va);
                let i0 = me.leaf_table(va).unwrap();
                let k = vpn(va, 0);
                let e = me.ent(i0, k);
                assert(0 <= k < 512);
                assert(e & 16 != 0) by {
                    assert(pte_perm_spec(e) & 8 != 0 ==> e & 16 != 0) by (bit_vector);
                }
                assert(pte_pa_spec(e) < 0x100_0000_0000_0000u64) by (bit_vector);
                let xi = 512 * i0 + k;
                assert(xi / 512 == i0);
                assert(me.is_user_leaf(xi));
                me.lemma_user_frames_has(xi, me.entries@.len() as int);
                let u = me.user_frames();
                let j = choose|j: int| 0 <= j < u.len() && u[j] == pte_pa_spec(e);
                assert(r@[me.table_pas().len() + j] == pte_pa_spec(e));
            }
            vstd::seq_lib::lemma_multiset_commutative(me.table_pas(), me.user_frames());
        }
        r
    }
}

/// The frames an allocator handed out in going from `old_frames` to
/// `new_frames` (it hands out from the end).
pub open spec fn taken(old_frames: Seq<u64>, new_frames: Seq<u64>) -> Seq<u64> {
    old_frames.subrange(new_frames.len() as int, old_frames.len() as int)
}

/// The frames a table owns: its table pages and the frames of its user
/// pages, counted with multiplicity.
pub open spec fn owned(pt: &PageTable) -> vstd::multiset::Multiset<u64> {
    pt.table_pas().to_multiset().add(pt.user_frames().to_multiset())
}

/// Handing out frames in two steps hands out the frames of both.
pub proof fn lemma_taken_trans(f0: Seq<u64>, f1: Seq<u64>, f2: Seq<u64>)
    requires
        f1.len() <= f0.len(),
        f1 == f0.subrange(0, f1.len() as int),
        f2.len() <= f1.len(),
        f2 == f1.subrange(0, f2.len() as int),
    ensures
        f2 == f0.subrange(0, f2.len() as int),
        taken(f0, f2).to_multiset() == taken(f0, f1).to_multiset().add(taken(f1, f2).to_multiset()),
{
    broadcast use vstd::seq_lib::group_seq_properties;

    assert(f2 =~= f0.subrange(0, f2.len() as int));
    assert(taken(f0, f2) =~= taken(f1, f2) + taken(f0, f1));
    vstd::seq_lib::lemma_multiset_commutative(taken(f1, f2), taken(f0, f1));
}

/// A table that grew by the frames handed out, with its user pages
/// unchanged, owns exactly those frames more.
pub proof fn lemma_owned_grew(p0: &PageTable, p1: &PageTable, f0: Seq<u64>, f1: Seq<u64>)
    requires
        grew_by(p0.table_pas(), p1.table_pas(), f0, f1),
        p1.user_frames().to_multiset() == p0.user_frames().to_multiset(),
    ensures
        f1.len() <= f0.len(),
        f1 == f0.subrange(0, f1.len() as int),
        owned(p1) == owned(p0).add(taken(f0, f1).to_multiset()),
{
    broadcast use vstd::seq_lib::group_seq_properties;
    broadcast use vstd::multiset::group_multiset_axioms;

    let a = p0.table_pas();
    let b = p1.table_pas();
    let added = b.subrange(a.len() as int, b.len() as int);
    let x = taken(f0, f1);
    assert(added =~= x.reverse()) by {
        assert forall|m: int| 0 <= m < added.len() implies added[m] == x.reverse()[m] by {
            assert(b[a.len() + m] == f0[f0.len() - 1 - m]);
        }
    }
    x.lemma_reverse_to_multiset();
    assert(b =~= a + added) by {
        assert(b.subrange(0, a.len() as int) == a);
    }
    vstd::seq_lib::lemma_multiset_commutative(a, added);
    assert(owned(p1) =~= owned(p0).add(x.to_multiset()));
}

/// A frame handed out and mapped as a user page (the table growing by
/// the frames handed out meanwhile): the table owns exactly the frames
/// handed out more.
pub proof fn lemma_owned_leaf(p0: &PageTable, p1: &PageTable, f0: Seq<u64>, f2: Seq<u64>, pa: u64)
    requires
        f0.len() >= 1,
        pa == f0.last(),
        grew_by(p0.table_pas(), p1.table_pas(), f0.drop_last(), f2),
        p1.user_frames().to_multiset() == p0.user_frames().to_multiset().insert(pa),
    ensures
        f2.len() <= f0.len(),
        f2 == f0.subrange(0, f2.len() as int),
        owned(p1) == owned(p0).add(taken(f0, f2).to_multiset()),
{
    broadcast use vstd::seq_lib::group_seq_properties;
    broadcast use vstd::multiset::group_multiset_axioms;

    let f1 = f0.drop_last();
    let a = p0.table_pas();
    let b = p1.table_pas();
    let added = b.subrange(a.len() as int, b.len() as int);
    let x = taken(f1, f2);
    assert(added =~= x.reverse()) by {
        assert forall|m: int| 0 <= m < added.len() implies added[m] == x.reverse()[m] by {
            assert(b[a.len() + m] == f1[f1.len() - 1 - m]);
        }
    }
    x.lemma_reverse_to_multiset();
    assert(b =~= a + added) by {
        assert(b.subrange(0, a.len() as int) == a);
    }
    vstd::seq_lib::lemma_multiset_commutative(a, added);
    lemma_taken_trans(f0, f1, f2);
    assert(taken(f0, f1) =~= seq![pa]);
    assert(owned(p1) =~= owned(p0).add(taken(f0, f2).to_multiset()));
}

/// Frame accounting across one "take a frame for a page, then map it"
/// step: if every frame taken so far from `f0` is either a table page
/// added since index `t0` or one of `leaves`, the same holds after the
/// step with `pa` added to the leaves.
pub proof fn lemma_account_step(
    f0: Seq<u64>,
    fr: Seq<u64>,
    fr2: Seq<u64>,
    p: Seq<u64>,
    p2: Seq<u64>,
    t0: int,
    leaves: Seq<u64>,
    pa: u64,
)
    requires
        1 <= fr.len() <= f0.len(),
        fr == f0.subrange(0, fr.len() as int),
        pa == fr.last(),
        grew_by(p, p2, fr.drop_last(), fr2),
        0 <= t0 <= p.len(),
        taken(f0, fr).to_multiset() == p.subrange(t0, p.len() as int).to_multiset().add(leaves.to_multiset()),
    ensures
        fr2.len() <= f0.len(),
        fr2 == f0.subrange(0, fr2.len() as int),
        p2.len() >= p.len(),
        p2.subrange(0, t0) == p.subrange(0, t0),
        taken(f0, fr2).to_multiset() == p2.subrange(t0, p2.len() as int).to_multiset().add(
            leaves.push(pa).to_multiset(),
        ),
{
    broadcast use vstd::seq_lib::group_seq_properties;
    broadcast use vstd::multiset::group_multiset_axioms;

    let fr1 = fr.drop_last();
    assert(fr2 =~= f0.subrange(0, fr2.len() as int)) by {
        assert forall|x: int| 0 <= x < fr2.len() implies fr2[x] == f0[x] by {
            assert(fr1.subrange(0, fr2.len() as int)[x] == fr1[x]);
        }
    }
    let x = f0.subrange(fr2.len() as int, fr1.len() as int);
    let added = p2.subrange(p.len() as int, p2.len() as int);
    assert(added =~= x.reverse()) by {
        assert forall|m: int| 0 <= m < added.len() implies added[m] == x.reverse()[m] by {
            assert(p2[p.len() + m] == fr1[fr1.len() - 1 - m]);
        }
    }
    x.lemma_reverse_to_multiset();
    assert(taken(f0, fr2) =~= x + seq![pa] + taken(f0, fr));
    assert(p2.subrange(0, p.len() as int) =~= p);
    assert(p2.subrange(0, t0) =~= p.subrange(0, t0));
    assert(p2.subrange(t0, p2.len() as int) =~= p.subrange(t0, p.len() as int) + added);
    vstd::seq_lib::lemma_multiset_commutative(x + seq![pa], taken(f0, fr));
    vstd::seq_lib::lemma_multiset_commutative(x, seq![pa]);
    vstd::seq_lib::lemma_multiset_commutative(p.subrange(t0, p.len() as int), added);
    vstd::seq_lib::lemma_multiset_commutative(leaves, seq![pa]);
    assert(leaves.push(pa) =~= leaves + seq![pa]);
    assert(taken(f0, fr2).to_multiset() =~= p2.subrange(t0, p2.len() as int).to_multiset().add(
        leaves.push(pa).to_multiset(),
    ));
}

/// `grew_by` composes.
proof fn grew_trans(p0: Seq<u64>, p1: Seq<u64>, p2: Seq<u64>, f0: Seq<u64>, f1: Seq<u64>, f2: Seq<u64>)
    requires
        grew_by(p0, p1, f0, f1),
        grew_by(p1, p2, f1, f2),
    ensures
        grew_by(p0, p2, f0, f2),
{
    assert(f2 =~= f0.subrange(0, f2.len() as int)) by {
        assert forall|x: int| 0 <= x < f2.len() implies f2[x] == f0[x] by {
            assert(f1.subrange(0, f2.len() as int)[x] == f1[x]);
            assert(f0.subrange(0, f1.len() as int)[x] == f0[x]);
        }
    }
    assert(p2.subrange(0, p0.len() as int) =~= p0) by {
        assert forall|x: int| 0 <= x < p0.len() implies p2[x] == p0[x] by {
            assert(p2.subrange(0, p1.len() as int)[x] == p2[x]);
            assert(p1.subrange(0, p0.len() as int)[x] == p1[x]);
        }
    }
    assert forall|m: int| 0 <= m < f0.len() - f2.len() implies #[trigger] p2[p0.len() + m] == f0[f0.len() - 1 - m] by {
        if m < f0.len() - f1.len() {
            assert(p2.subrange(0, p1.len() as int)[p0.len() + m] == p2[p0.len() + m]);
            assert(p1[p0.len() + m] == f0[f0.len() - 1 - m]);
        } else {
            let m2 = m - (f0.len() - f1.len());
            assert(p2[p1.len() + m2] == f1[f1.len() - 1 - m2]);
            assert(f0.subrange(0, f1.len() as int)[f1.len() - 1 - m2] == f0[f1.len() - 1 - m2]);
        }
    }
}

impl crate::hal::PageTableOps for PageTable {
    open spec fn table_wf(&self) -> bool {
        self.wf()
    }

    open spec fn table_lookup(&self, va: u64) -> Option<(u64, u32)> {
        self.lookup(va)
    }

    fn translate(&self, va: u64) -> (r: Option<(u64, PtePerm)>) {
        PageTable::translate(self, va)
    }

    fn unmap_page(&mut self, va: u64) -> (r: Option<u64>) {
        PageTable::unmap_page(self, va)
    }
}

/// `satp` value that installs `pt`: Sv39 mode with the root's PPN.
pub fn satp_value(pt: &PageTable) -> (r: u64)
    ensures
        r == SATP_SV39 | (pt.root() >> 12u64),
{
    SATP_SV39 | (pt.root_pa() >> 12)
}

} // verus!
