//! Kernel heap: first-fit, address-ordered free list with coalescing
//! over a 16 MiB arena.
//!
//! Every allocation is preceded by a 16-byte header holding the full
//! block size (header + payload + padding, a multiple of 16). Free
//! blocks are kept in address order; adjacent free blocks are merged
//! when a block is returned, so no two free blocks ever touch.

use vstd::prelude::*;

verus! {

pub const HEAP_SIZE: u64 = 0x100_0000;
/// Every block size and payload address is a multiple of this.
pub const UNIT: u64 = 16;
/// Bytes between a block's start and its payload (holds the size).
pub const HDR: u64 = 16;
/// Smallest fragment worth keeping on the free list.
pub const MIN_FREE: u64 = 32;

/// `n` rounded up to a multiple of `a`.
pub open spec fn ru(n: int, a: int) -> int {
    (n + a - 1) / a * a
}

/// Alignment actually used for a request aligned to `align`.
pub open spec fn eff_align(align: u64) -> int {
    if align < 16 {
        16
    } else {
        align as int
    }
}

/// Payload bytes reserved for a request of `size` bytes.
pub open spec fn payload_size(size: u64) -> int {
    ru(if size == 0 {
        1
    } else {
        size as int
    }, 16)
}

/// Payload address chosen inside a free block starting at `b`: the
/// first aligned address after a header, pushed further up when the
/// gap in front would be too small to stay a free block.
pub open spec fn payload(b: int, a: int) -> int {
    let p1 = ru(b + 16, a);
    if p1 - 16 - b != 0 && p1 - 16 - b < 32 {
        ru(b + 48, a)
    } else {
        p1
    }
}

/// End of the carved block before a too-small tail is absorbed.
pub open spec fn carve_end(blk: (u64, u64), ps: int, a: int) -> int {
    ru(payload(blk.0 as int, a) + ps, 16)
}

/// The request fits in free block `blk`.
pub open spec fn fits(blk: (u64, u64), ps: int, a: int) -> bool {
    carve_end(blk, ps, a) <= blk.0 + blk.1
}

/// End of the block handed out from `blk` (a tail shorter than
/// `MIN_FREE` is absorbed).
pub open spec fn block_end(blk: (u64, u64), ps: int, a: int) -> int {
    let e = carve_end(blk, ps, a);
    if blk.0 + blk.1 - e < 32 {
        blk.0 + blk.1
    } else {
        e
    }
}

/// Free blocks left of `blk` after the request is carved out of it:
/// the front pad and the tail, each if present.
pub open spec fn replacement(blk: (u64, u64), ps: int, a: int) -> Seq<(u64, u64)> {
    let front = payload(blk.0 as int, a) - 16 - blk.0;
    let end = block_end(blk, ps, a);
    (if front >= 32 {
        seq![(blk.0, front as u64)]
    } else {
        Seq::empty()
    }) + (if end < blk.0 + blk.1 {
        seq![(end as u64, (blk.0 + blk.1 - end) as u64)]
    } else {
        Seq::empty()
    })
}

/// `i` is the first block of `s` that fits the request.
pub open spec fn first_fit(s: Seq<(u64, u64)>, ps: int, a: int, i: int) -> bool {
    &&& 0 <= i < s.len()
    &&& fits(s[i], ps, a)
    &&& forall|j: int| 0 <= j < i ==> !#[trigger] fits(s[j], ps, a)
}

/// Total bytes in the blocks of `s`.
pub open spec fn total(s: Seq<(u64, u64)>) -> int
    decreases s.len(),
{
    if s.len() == 0 {
        0
    } else {
        total(s.drop_last()) + s.last().1
    }
}

/// Blocks are aligned, large enough, inside the arena at `base`, in
/// address order, and no two touch.
pub open spec fn blocks_ok(s: Seq<(u64, u64)>, base: int) -> bool {
    &&& forall|i: int|
        0 <= i < s.len() ==> {
            &&& #[trigger] s[i].0 % 16 == 0
            &&& s[i].1 % 16 == 0
            &&& s[i].1 >= 32
            &&& base <= s[i].0
            &&& s[i].0 + s[i].1 <= base + HEAP_SIZE
        }
    &&& forall|i: int, j: int| 0 <= i < j < s.len() ==> #[trigger] s[i].0 + s[i].1 < #[trigger] s[j].0
}

/// `i` is where a block starting at `hdr` goes in `s`.
pub open spec fn insert_pos(s: Seq<(u64, u64)>, hdr: int, i: int) -> bool {
    &&& 0 <= i <= s.len()
    &&& forall|j: int| 0 <= j < i ==> #[trigger] s[j].0 < hdr
    &&& i < s.len() ==> s[i].0 >= hdr
}

/// `s` with block `(hdr, size)` inserted at `i`, merged with the next
/// and the previous block where they touch.
pub open spec fn merged(s: Seq<(u64, u64)>, i: int, hdr: u64, size: u64) -> Seq<(u64, u64)> {
    let merge_next = i < s.len() && hdr + size == s[i].0;
    let node_size: int = if merge_next {
        size + s[i].1
    } else {
        size as int
    };
    let rest = if merge_next {
        s.skip(i + 1)
    } else {
        s.skip(i)
    };
    if i > 0 && s[i - 1].0 + s[i - 1].1 == hdr {
        s.take(i - 1) + seq![(s[i - 1].0, (s[i - 1].1 + node_size) as u64)] + rest
    } else {
        s.take(i) + seq![(hdr, node_size as u64)] + rest
    }
}

/// Allocator state: the free list, bytes in use and the high-water
/// mark. The arena is laid out as one free block on first use.
pub struct HeapState {
    free: Vec<(u64, u64)>,
    base: u64,
    initialized: bool,
    used: u64,
    peak: u64,
}

impl HeapState {
    /// The free blocks `(start, size)` in address order.
    pub closed spec fn view(&self) -> Seq<(u64, u64)> {
        self.free@
    }

    pub closed spec fn spec_base(&self) -> u64 {
        self.base
    }

    pub closed spec fn spec_used(&self) -> u64 {
        self.used
    }

    pub closed spec fn spec_peak(&self) -> u64 {
        self.peak
    }

    pub closed spec fn spec_initialized(&self) -> bool {
        self.initialized
    }

    /// The free list as the next allocation sees it.
    pub open spec fn start_list(&self) -> Seq<(u64, u64)> {
        if self.spec_initialized() {
            self@
        } else {
            seq![(self.spec_base(), HEAP_SIZE)]
        }
    }

    /// Well-formed: the blocks are in order inside the arena, and free
    /// bytes plus used bytes make up the arena.
    pub closed spec fn wf(&self) -> bool {
        &&& self.base % 16 == 0
        &&& self.base + HEAP_SIZE <= 0x4000_0000_0000_0000
        &&& self.used <= self.peak
        &&& self.peak <= HEAP_SIZE
        &&& self.initialized ==> blocks_ok(self.free@, self.base as int) && total(self.free@) + self.used
            == HEAP_SIZE
        &&& !self.initialized ==> self.free@.len() == 0 && self.used == 0
    }

    /// An untouched heap over the arena starting at `base`.
    pub fn new(base: u64) -> (r: Self)
        requires
            base % 16 == 0,
            base + HEAP_SIZE <= 0x4000_0000_0000_0000,
        ensures
            r.wf(),
            r.spec_base() == base,
            !r.spec_initialized(),
            r.spec_used() == 0,
            r.spec_peak() == 0,
    {
        HeapState { free: Vec::new(), base, initialized: false, used: 0, peak: 0 }
    }
}

impl HeapState {
    /// A well-formed heap never has more bytes in use than its peak, nor
    /// a peak beyond the arena.
    pub proof fn lemma_usage_bounds(&self)
        requires
            self.wf(),
        ensures
            self.spec_used() <= self.spec_peak() <= HEAP_SIZE,
    {
    }

    /// Once the arena is laid out, the bytes in use are exactly the
    /// arena's bytes that no free block holds: the sum of the blocks
    /// handed out and not yet given back.
    pub proof fn lemma_used_is_arena_minus_free(&self)
        requires
            self.wf(),
            self.spec_initialized(),
        ensures
            self.spec_used() + total(self@) == HEAP_SIZE,
    {
    }
}

/// The peak of `b` is at least that of `a`.
pub open spec fn peak_kept(a: &HeapState, b: &HeapState) -> bool {
    a.spec_peak() <= b.spec_peak()
}

/// The peak never falls: over any run of heap states where each step
/// keeps the peak (as `allocate` and `deallocate` do), a later state's
/// peak is at least an earlier one's.
pub proof fn law_peak_never_falls(run: Seq<HeapState>, i: int, j: int)
    requires
        forall|k: int| #![trigger run[k]] 0 < k < run.len() ==> peak_kept(&run[k - 1], &run[k]),
        0 <= i <= j < run.len(),
    ensures
        run[i].spec_peak() <= run[j].spec_peak(),
    decreases j - i,
{
    if i < j {
        law_peak_never_falls(run, i, j - 1);
        assert(peak_kept(&run[j - 1], &run[j]));
    }
}

/// `(used, peak)` heap bytes.
pub fn stats(h: &HeapState) -> (r: (u64, u64))
    ensures
        r == (h.spec_used(), h.spec_peak()),
{
    (h.used, h.peak)
}

/// Facts about rounding up.
proof fn lemma_ru(n: int, a: int)
    requires
        n >= 0,
        a > 0,
    ensures
        ru(n, a) % a == 0,
        n <= ru(n, a) < n + a,
{
    let q = (n + a - 1) / a;
    let m = (n + a - 1) % a;
    assert(n + a - 1 == a * q + m && 0 <= m < a) by {
        vstd::arithmetic::div_mod::lemma_fundamental_div_mod(n + a - 1, a);
    }
    assert(ru(n, a) == q * a);
    assert((q * a) % a == 0) by {
        vstd::arithmetic::div_mod::lemma_mod_multiples_basic(q, a);
    }
    assert(q * a == a * q) by (nonlinear_arith);
}

/// A multiple of a multiple of 16 is a multiple of 16.
proof fn lemma_mult16(x: int, a: int)
    requires
        x % a == 0,
        a % 16 == 0,
        a > 0,
        x >= 0,
    ensures
        x % 16 == 0,
{
    vstd::arithmetic::div_mod::lemma_fundamental_div_mod(x, a);
    vstd::arithmetic::div_mod::lemma_fundamental_div_mod(a, 16);
    let q = x / a;
    let r = a / 16;
    assert(x == a * q);
    assert(a == 16 * r);
    assert(x == 16 * (r * q)) by (nonlinear_arith)
        requires
            x == a * q,
            a == 16 * r,
    ;
    vstd::arithmetic::div_mod::lemma_mod_multiples_basic(r * q, 16);
    assert((r * q) * 16 == 16 * (r * q)) by (nonlinear_arith);
}

/// Where the payload lands in a block starting at `b`.
proof fn lemma_payload(b: int, a: int)
    requires
        b >= 0,
        b % 16 == 0,
        a >= 16,
        a % 16 == 0,
    ensures
        payload(b, a) % a == 0,
        payload(b, a) % 16 == 0,
        payload(b, a) >= b + 16,
        payload(b, a) <= b + 48 + a,
        payload(b, a) - 16 - b == 0 || payload(b, a) - 16 - b >= 32,
{
    lemma_ru(b + 16, a);
    lemma_ru(b + 48, a);
    lemma_mult16(ru(b + 16, a), a);
    lemma_mult16(ru(b + 48, a), a);
}

/// `total` adds up over concatenation.
proof fn lemma_total_concat(x: Seq<(u64, u64)>, y: Seq<(u64, u64)>)
    ensures
        total(x + y) == total(x) + total(y),
    decreases y.len(),
{
    if y.len() == 0 {
        assert(x + y =~= x);
    } else {
        lemma_total_concat(x, y.drop_last());
        assert((x + y).drop_last() =~= x + y.drop_last());
    }
}

/// `total` is never negative.
proof fn lemma_total_nonneg(s: Seq<(u64, u64)>)
    ensures
        total(s) >= 0,
    decreases s.len(),
{
    if s.len() > 0 {
        lemma_total_nonneg(s.drop_last());
    }
}

/// `total` of a one-block sequence.
proof fn lemma_total_one(e: (u64, u64))
    ensures
        total(seq![e]) == e.1,
{
    assert(seq![e].drop_last() =~= Seq::<(u64, u64)>::empty());
    assert(total(Seq::<(u64, u64)>::empty()) == 0);
}

/// `total` of `s` split around block `i`.
proof fn lemma_total_split(s: Seq<(u64, u64)>, i: int)
    requires
        0 <= i < s.len(),
    ensures
        total(s) == total(s.take(i)) + s[i].1 + total(s.skip(i + 1)),
{
    assert(s =~= s.take(i) + seq![s[i]] + s.skip(i + 1));
    lemma_total_concat(s.take(i) + seq![s[i]], s.skip(i + 1));
    lemma_total_concat(s.take(i), seq![s[i]]);
    lemma_total_one(s[i]);
}


/// Carving the first fitting block keeps the list well-formed, takes
/// exactly the handed-out bytes off the free total, and leaves the
/// handed-out block disjoint from every free block.
proof fn lemma_carve(sl: Seq<(u64, u64)>, base: int, i: int, ps: int, a: int)
    requires
        blocks_ok(sl, base),
        0 <= base,
        base + HEAP_SIZE <= 0x4000_0000_0000_0000,
        first_fit(sl, ps, a, i),
        ps >= 16,
        ps % 16 == 0,
        a >= 16,
        a % 16 == 0,
    ensures
        ({
            let nl = sl.take(i) + replacement(sl[i], ps, a) + sl.skip(i + 1);
            let p = payload(sl[i].0 as int, a);
            let end = block_end(sl[i], ps, a);
            &&& blocks_ok(nl, base)
            &&& total(nl) + (end - (p - 16)) == total(sl)
            &&& p % a == 0
            &&& base + 16 <= p
            &&& p + ps <= end <= base + HEAP_SIZE
            &&& forall|k: int| 0 <= k < nl.len() ==> #[trigger] nl[k].0 + nl[k].1 <= p - 16 || end <= nl[k].0
        }),
{
    let blk = sl[i];
    let b = blk.0 as int;
    let sz = blk.1 as int;
    let p = payload(b, a);
    let front = p - 16 - b;
    let e0 = carve_end(blk, ps, a);
    let end = block_end(blk, ps, a);
    lemma_payload(b, a);
    lemma_ru(p + ps, 16);
    assert(sl[i].0 % 16 == 0);
    assert(e0 % 16 == 0);
    let repl = replacement(blk, ps, a);
    let nl = sl.take(i) + repl + sl.skip(i + 1);
    if i > 0 {
        assert(sl[i - 1].0 + sl[i - 1].1 < b);
    }
    if i + 1 < sl.len() {
        assert(b + sz < sl[i + 1].0);
    }
    assert(sl.subrange(i, i + 1) =~= seq![blk]);
    lemma_total_one(blk);
    if front >= 32 {
        let fnode = (blk.0, front as u64);
        if end < b + sz {
            let tnode = (end as u64, (b + sz - end) as u64);
            lemma_splice(sl, base, i, i + 1, tnode);
            let s1 = sl.take(i) + seq![tnode] + sl.skip(i + 1);
            assert(s1[i] == tnode);
            if i > 0 {
                assert(s1[i - 1] == sl[i - 1]);
            }
            lemma_splice(s1, base, i, i, fnode);
            assert(s1.subrange(i, i) =~= Seq::<(u64, u64)>::empty());
            assert(s1.take(i) + seq![fnode] + s1.skip(i) =~= nl);
        } else {
            lemma_splice(sl, base, i, i + 1, fnode);
            assert(sl.take(i) + seq![fnode] + sl.skip(i + 1) =~= nl);
        }
    } else {
        if end < b + sz {
            let tnode = (end as u64, (b + sz - end) as u64);
            lemma_splice(sl, base, i, i + 1, tnode);
            assert(sl.take(i) + seq![tnode] + sl.skip(i + 1) =~= nl);
        } else {
            lemma_remove(sl, base, i);
            assert(sl.take(i) + sl.skip(i + 1) =~= nl);
        }
    }
    assert forall|k: int| 0 <= k < nl.len() implies #[trigger] nl[k].0 + nl[k].1 <= p - 16 || end <= nl[k].0 by {
        let r = repl.len() as int;
        if k < i {
            assert(nl[k] == sl[k]);
        } else if k < i + r {
        } else {
            assert(nl[k] == sl[k - r + 1]);
            assert(b + sz < sl[k - r + 1].0);
        }
    }
}

/// Dropping block `i` keeps the list well-formed.
proof fn lemma_remove(s: Seq<(u64, u64)>, base: int, i: int)
    requires
        blocks_ok(s, base),
        0 <= i < s.len(),
    ensures
        blocks_ok(s.take(i) + s.skip(i + 1), base),
        total(s.take(i) + s.skip(i + 1)) == total(s) - s[i].1,
{
    let nl = s.take(i) + s.skip(i + 1);
    assert forall|k: int| 0 <= k < nl.len() implies #[trigger] nl[k] == (if k < i {
        s[k]
    } else {
        s[k + 1]
    }) by {}
    assert forall|k: int| 0 <= k < nl.len() implies {
        &&& #[trigger] nl[k].0 % 16 == 0
        &&& nl[k].1 % 16 == 0
        &&& nl[k].1 >= 32
        &&& base <= nl[k].0
        &&& nl[k].0 + nl[k].1 <= base + HEAP_SIZE
    } by {
        if k < i {
            assert(nl[k] == s[k]);
        } else {
            assert(nl[k] == s[k + 1]);
        }
    }
    assert forall|x: int, y: int| 0 <= x < y < nl.len() implies #[trigger] nl[x].0 + nl[x].1 < #[trigger] nl[y].0 by {
        let x2 = if x < i {
            x
        } else {
            x + 1
        };
        let y2 = if y < i {
            y
        } else {
            y + 1
        };
        assert(nl[x] == s[x2] && nl[y] == s[y2]);
    }
    lemma_total_split(s, i);
    lemma_total_concat(s.take(i), s.skip(i + 1));
}

impl HeapState {
    /// First-fit allocation of `size` bytes aligned to `align`.
    ///
    /// Returns the payload address and the size of the whole block
    /// (header included), which the caller stores in the 16 bytes just
    /// below the payload; `None` if no free block fits.
    #[verifier::rlimit(90)]
    #[verifier::spinoff_prover]
    pub fn allocate(&mut self, size: u64, align: u64) -> (r: Option<(u64, u64)>)
        requires
            old(self).wf(),
            align >= 1,
            align <= 16 || align % 16 == 0,
            size + align <= 0x8000_0000_0000_0000,
        ensures
            final(self).wf(),
            final(self).spec_base() == old(self).spec_base(),
            final(self).spec_initialized(),
            peak_kept(old(self), final(self)),
            ({
                let sl = old(self).start_list();
                let ps = payload_size(size);
                let a = eff_align(align);
                match r {
                    None => {
                        &&& final(self)@ == sl
                        &&& final(self).spec_used() == old(self).spec_used()
                        &&& final(self).spec_peak() == old(self).spec_peak()
                        &&& forall|j: int| 0 <= j < sl.len() ==> !#[trigger] fits(sl[j], ps, a)
                    },
                    Some((p, blk)) => {
                        &&& exists|i: int|
                            #[trigger] first_fit(sl, ps, a, i) && final(self)@ == sl.take(i) + replacement(
                                sl[i],
                                ps,
                                a,
                            ) + sl.skip(i + 1) && p == payload(sl[i].0 as int, a) && blk == block_end(sl[i], ps, a)
                                - (p - 16)
                        &&& final(self).spec_used() == old(self).spec_used() + blk
                        &&& final(self).spec_peak() == (if final(self).spec_used() > old(self).spec_peak() {
                            final(self).spec_used()
                        } else {
                            old(self).spec_peak()
                        })
                        &&& (p as int) % a == 0
                        &&& blk % 16 == 0
                        &&& blk >= ps + 16
                        &&& old(self).spec_base() + 16 <= p
                        &&& p + ps <= p - 16 + blk <= old(self).spec_base() + HEAP_SIZE
                        &&& forall|k: int|
                            0 <= k < final(self)@.len() ==> #[trigger] final(self)@[k].0 + final(self)@[k].1 <= p
                                - 16 || p - 16 + blk <= final(self)@[k].0
                    },
                }
            }),
    {
        let a: u64 = if align < 16 {
            16
        } else {
            align
        };
        let sz: u64 = if size == 0 {
            1
        } else {
            size
        };
        let ps: u64 = (sz + 15) / 16 * 16;
        proof {
            lemma_ru(sz as int, 16);
        }
        if !self.initialized {
            let mut v: Vec<(u64, u64)> = Vec::new();
            v.push((self.base, HEAP_SIZE));
            self.free = v;
            self.initialized = true;
            proof {
                lemma_total_one((self.base, HEAP_SIZE));
                assert(self.free@ =~= seq![(self.base, HEAP_SIZE)]);
            }
        }
        let ghost sl = self.free@;
        assert(sl == old(self).start_list());
        let mut i: usize = 0;
        while i < self.free.len()
            invariant
                self.free@ == sl,
                sl == old(self).start_list(),
                self.wf(),
                self.initialized,
                self.base == old(self).base,
                self.used == old(self).used,
                self.peak == old(self).peak,
                i <= sl.len(),
                a as int == eff_align(align),
                ps as int == payload_size(size),
                ps >= 16,
                ps % 16 == 0,
                ps <= size + 16,
                a % 16 == 0,
                a >= 16,
                size + a <= 0x8000_0000_0000_0010,
                forall|j: int| 0 <= j < i ==> !#[trigger] fits(sl[j], ps as int, a as int),
            decreases sl.len() - i,
        {
            let (b, s) = self.free[i];
            proof {
                assert(blocks_ok(sl, self.base as int));
                assert(sl[i as int].0 % 16 == 0);
                lemma_payload(b as int, a as int);
                lemma_ru(b + 16, a as int);
                lemma_ru(b + 48, a as int);
            }
            let p1: u64 = (b + 16 + a - 1) / a * a;
            assert(p1 as int == ru(b + 16, a as int));
            let mut p: u64 = p1;
            if p1 - 16 - b != 0 && p1 - 16 - b < 32 {
                p = (b + 48 + a - 1) / a * a;
            }
            assert(p as int == payload(b as int, a as int));
            let hdr: u64 = p - 16;
            let front: u64 = hdr - b;
            let end0: u64 = (p + ps + 15) / 16 * 16;
            if end0 <= b + s {
                let end: u64 = if b + s - end0 < 32 {
                    b + s
                } else {
                    end0
                };
                let ghost repl = replacement(sl[i as int], ps as int, a as int);
                proof {
                    assert(first_fit(sl, ps as int, a as int, i as int));
                    lemma_carve(sl, self.base as int, i as int, ps as int, a as int);
                }
                if front >= 32 {
                    self.free.set(i, (b, front));
                    if end < b + s {
                        self.free.insert(i + 1, (end, b + s - end));
                    }
                } else {
                    if end < b + s {
                        self.free.set(i, (end, b + s - end));
                    } else {
                        self.free.remove(i);
                    }
                }
                proof {
                    assert(self.free@ =~= sl.take(i as int) + repl + sl.skip(i + 1));
                }
                let block: u64 = end - hdr;
                proof {
                    assert(p % 16 == 0);
                    assert(end0 % 16 == 0 && end0 >= p + ps) by (nonlinear_arith)
                        requires
                            end0 == (p + ps + 15) / 16 * 16,
                    ;
                    assert(block % 16 == 0 && block >= ps + 16);
                    lemma_total_nonneg(self.free@);
                    assert(end as int == block_end(sl[i as int], ps as int, a as int));
                }
                self.used = self.used + block;
                if self.used > self.peak {
                    self.peak = self.used;
                }
                proof {
                    assert(blocks_ok(self.free@, self.base as int));
                    assert(total(self.free@) + self.used == HEAP_SIZE);
                    assert(self.wf());
                    assert(first_fit(sl, ps as int, a as int, i as int) && self.free@ == sl.take(i as int) + replacement(
                        sl[i as int],
                        ps as int,
                        a as int,
                    ) + sl.skip(i + 1) && p == payload(sl[i as int].0 as int, a as int) && block == block_end(sl[i as int], ps as int, a as int) - (p - 16));
                }
                return Some((p, block));
            }
            i = i + 1;
        }
        None
    }
}


/// Replacing blocks `lo..hi` of a well-formed list by one block that
/// fits between their neighbours keeps the list well-formed.
proof fn lemma_splice(s: Seq<(u64, u64)>, base: int, lo: int, hi: int, node: (u64, u64))
    requires
        blocks_ok(s, base),
        0 <= lo <= hi <= s.len(),
        node.0 % 16 == 0,
        node.1 % 16 == 0,
        node.1 >= 32,
        base <= node.0,
        node.0 + node.1 <= base + HEAP_SIZE,
        lo > 0 ==> s[lo - 1].0 + s[lo - 1].1 < node.0,
        hi < s.len() ==> node.0 + node.1 < s[hi].0,
    ensures
        blocks_ok(s.take(lo) + seq![node] + s.skip(hi), base),
        total(s.take(lo) + seq![node] + s.skip(hi)) == total(s) - total(s.subrange(lo, hi)) + node.1,
{
    let nl = s.take(lo) + seq![node] + s.skip(hi);
    let d = hi - lo - 1;
    assert forall|k: int| 0 <= k < nl.len() implies #[trigger] nl[k] == (if k < lo {
        s[k]
    } else if k == lo {
        node
    } else {
        s[k + d]
    }) by {}
    assert forall|k: int| 0 <= k < nl.len() implies {
        &&& #[trigger] nl[k].0 % 16 == 0
        &&& nl[k].1 % 16 == 0
        &&& nl[k].1 >= 32
        &&& base <= nl[k].0
        &&& nl[k].0 + nl[k].1 <= base + HEAP_SIZE
    } by {
        if k < lo {
            assert(nl[k] == s[k]);
        } else if k > lo {
            assert(nl[k] == s[k + d]);
        }
    }
    assert forall|x: int, y: int| 0 <= x < y < nl.len() implies #[trigger] nl[x].0 + nl[x].1 < #[trigger] nl[y].0 by {
        if y < lo {
            assert(nl[x] == s[x] && nl[y] == s[y]);
        } else if y == lo {
            assert(nl[x] == s[x]);
            if x < lo - 1 {
                assert(s[x].0 + s[x].1 < s[lo - 1].0);
            }
        } else if x < lo {
            assert(nl[x] == s[x] && nl[y] == s[y + d]);
            assert(s[x].0 + s[x].1 < s[y + d].0);
        } else if x == lo {
            assert(nl[y] == s[y + d]);
            if y + d > hi {
                assert(s[hi].0 < s[y + d].0);
            }
        } else {
            assert(nl[x] == s[x + d] && nl[y] == s[y + d]);
        }
    }
    assert(s =~= s.take(lo) + s.subrange(lo, hi) + s.skip(hi));
    lemma_total_concat(s.take(lo) + s.subrange(lo, hi), s.skip(hi));
    lemma_total_concat(s.take(lo), s.subrange(lo, hi));
    lemma_total_concat(s.take(lo) + seq![node], s.skip(hi));
    lemma_total_concat(s.take(lo), seq![node]);
    lemma_total_one(node);
}

/// The block `(hdr, size)` may be returned to the free list: aligned,
/// inside the arena, and overlapping no free block.
pub open spec fn returnable(s: Seq<(u64, u64)>, base: int, hdr: int, size: int) -> bool {
    &&& hdr % 16 == 0
    &&& size % 16 == 0
    &&& size >= 32
    &&& base <= hdr
    &&& hdr + size <= base + HEAP_SIZE
    &&& forall|j: int| 0 <= j < s.len() ==> #[trigger] s[j].0 + s[j].1 <= hdr || hdr + size <= s[j].0
}

/// Inserting and coalescing a returnable block keeps the list
/// well-formed and adds its bytes to the free total.
#[verifier::spinoff_prover]
proof fn lemma_merge(s: Seq<(u64, u64)>, base: int, i: int, hdr: u64, size: u64)
    requires
        blocks_ok(s, base),
        insert_pos(s, hdr as int, i),
        returnable(s, base, hdr as int, size as int),
    ensures
        blocks_ok(merged(s, i, hdr, size), base),
        total(merged(s, i, hdr, size)) == total(s) + size,
{
    let mn = i < s.len() && hdr + size == s[i].0;
    let mp = i > 0 && s[i - 1].0 + s[i - 1].1 == hdr;
    if i > 0 {
        assert(s[i - 1].0 < hdr);
        assert(s[i - 1].0 + s[i - 1].1 <= hdr);
    }
    if i < s.len() {
        assert(hdr + size <= s[i].0);
    }
    if i + 1 < s.len() {
        assert(s[i].0 + s[i].1 < s[i + 1].0);
    }
    if i >= 2 {
        assert(s[i - 2].0 + s[i - 2].1 < s[i - 1].0);
    }
    let ext = s + seq![(0u64, 0u64), (0u64, 0u64)];
    assert(s.subrange(i, i) =~= Seq::<(u64, u64)>::empty());
    if mn {
        assert(s.subrange(i, i + 1) =~= seq![s[i]]);
        lemma_total_one(s[i]);
    }
    if mp {
        assert(s.subrange(i - 1, i) =~= seq![s[i - 1]]);
        lemma_total_one(s[i - 1]);
        if mn {
            assert(s.subrange(i - 1, i + 1) =~= seq![s[i - 1]] + seq![s[i]]);
            lemma_total_concat(seq![s[i - 1]], seq![s[i]]);
        }
    }
    let node_size: int = if mn {
        size + s[i].1
    } else {
        size as int
    };
    if mp {
        let hi = if mn {
            i + 1
        } else {
            i
        };
        assert(s.skip(hi) == (if mn {
            s.skip(i + 1)
        } else {
            s.skip(i)
        }));
        lemma_splice(s, base, i - 1, hi, (s[i - 1].0, (s[i - 1].1 + node_size) as u64));
    } else {
        let hi = if mn {
            i + 1
        } else {
            i
        };
        lemma_splice(s, base, i, hi, (hdr, node_size as u64));
    }
}

impl HeapState {
    /// Returns the block whose payload is at `ptr` and whose header
    /// records `size` bytes: it goes back into the free list in address
    /// order, merged with the free blocks it touches. A null `ptr` is
    /// ignored.
    pub fn deallocate(&mut self, ptr: u64, size: u64)
        requires
            old(self).wf(),
            ptr != 0 ==> {
                &&& old(self).spec_initialized()
                &&& ptr >= 16
                &&& returnable(old(self)@, old(self).spec_base() as int, ptr - 16, size as int)
                &&& old(self).spec_used() >= size
            },
        ensures
            final(self).wf(),
            final(self).spec_base() == old(self).spec_base(),
            final(self).spec_initialized() == old(self).spec_initialized(),
            final(self).spec_peak() == old(self).spec_peak(),
            peak_kept(old(self), final(self)),
            ptr == 0 ==> final(self)@ == old(self)@ && final(self).spec_used() == old(self).spec_used(),
            ptr != 0 ==> {
                &&& final(self).spec_used() == old(self).spec_used() - size
                &&& exists|i: int|
                    #[trigger] insert_pos(old(self)@, ptr - 16, i) && final(self)@ == merged(
                        old(self)@,
                        i,
                        (ptr - 16) as u64,
                        size,
                    )
            },
    {
        if ptr == 0 {
            return;
        }
        let hdr: u64 = ptr - 16;
        let ghost s = self.free@;
        self.used = self.used - size;
        let mut i: usize = 0;
        while i < self.free.len() && self.free[i].0 < hdr
            invariant
                self.free@ == s,
                i <= s.len(),
                forall|j: int| 0 <= j < i ==> #[trigger] s[j].0 < hdr,
            decreases s.len() - i,
        {
            i = i + 1;
        }
        proof {
            assert(insert_pos(s, hdr as int, i as int));
            assert(returnable(s, self.base as int, hdr as int, size as int));
            lemma_merge(s, self.base as int, i as int, hdr, size);
        }
        let len: usize = self.free.len();
        let merge_next: bool = i < len && hdr + size == self.free[i].0;
        let node_size: u64 = if merge_next {
            proof {
                assert(s[i as int].0 + s[i as int].1 <= self.base + HEAP_SIZE);
            }
            size + self.free[i].1
        } else {
            size
        };
        if merge_next {
            self.free.set(i, (hdr, node_size));
        } else {
            self.free.insert(i, (hdr, size));
        }
        let ghost rest = if merge_next {
            s.skip(i + 1)
        } else {
            s.skip(i as int)
        };
        proof {
            assert(self.free@ =~= s.take(i as int) + seq![(hdr, node_size)] + rest);
        }
        if i > 0 && self.free[i - 1].0 + self.free[i - 1].1 == hdr {
            let prev = self.free[i - 1];
            proof {
                assert(prev == s[i - 1]);
                assert(prev.0 + prev.1 + node_size <= self.base + HEAP_SIZE) by {
                    assert(blocks_ok(merged(s, i as int, hdr, size), self.base as int));
                    let m = merged(s, i as int, hdr, size);
                    assert(m[i - 1] == (s[i - 1].0, (s[i - 1].1 + node_size) as u64));
                }
            }
            self.free.set(i - 1, (prev.0, prev.1 + node_size));
            self.free.remove(i);
            proof {
                assert(self.free@ =~= s.take(i - 1) + seq![(s[i - 1].0, (s[i - 1].1 + node_size) as u64)] + rest);
            }
        }
        proof {
            assert(self.free@ == merged(s, i as int, hdr, size));
        }
    }
}

} // verus!
