//! Physical 4 KiB frame allocator: a LIFO free list of page-aligned
//! physical addresses.

use vstd::prelude::*;

use crate::hal::FrameAllocator;

verus! {

/// Frames are 4 KiB.
pub const FRAME_SIZE: u64 = 4096;

/// The frames `s, s + 4096, ...` that lie in `[s, e)`, ascending.
pub open spec fn frames_in(s: int, e: int) -> Seq<u64>
    decreases e - s,
{
    if s + 4096 > e {
        Seq::empty()
    } else {
        seq![s as u64] + frames_in(s + 4096, e)
    }
}

/// `start` rounded up to a page boundary.
pub open spec fn page_round_up(start: int) -> int {
    (start + 4095) / 4096 * 4096
}

/// `end` rounded down to a page boundary.
pub open spec fn page_round_down(end: int) -> int {
    end / 4096 * 4096
}

/// The frame allocator: free frames; the next one handed out is the
/// last.
pub struct FrameAllocImpl {
    free: Vec<u64>,
}

impl View for FrameAllocImpl {
    type V = Seq<u64>;

    /// The free frames in order; the last is handed out first.
    closed spec fn view(&self) -> Seq<u64> {
        self.free@
    }
}

impl FrameAllocImpl {

    pub closed spec fn wf(&self) -> bool {
        &&& self.free@.no_duplicates()
        &&& forall|i: int| 0 <= i < self.free@.len() ==> #[trigger] self.free@[i] % 4096 == 0
    }

    /// An allocator with no frames.
    pub fn new() -> (r: Self)
        ensures
            r.wf(),
            r@ == Seq::<u64>::empty(),
    {
        FrameAllocImpl { free: Vec::new() }
    }

    /// Adds every whole page of `[start, end)` (start rounded up, end
    /// rounded down), lowest first.
    pub fn add_range(&mut self, start: u64, end: u64)
        requires
            old(self).wf(),
            start <= u64::MAX - 4095,
            forall|i: int|
                0 <= i < old(self)@.len() ==> !(start <= #[trigger] old(self)@[i] < end),
        ensures
            final(self).wf(),
            final(self)@ == old(self)@ + frames_in(page_round_up(start as int), page_round_down(end as int)),
    {
        let s: u64 = (start + 4095) / 4096 * 4096;
        let e: u64 = end / 4096 * 4096;
        let mut pa: u64 = s;
        let ghost base = self@;
        proof {
            lemma_frames_in_facts(s as int, e as int);
        }
        while pa <= e && e - pa >= 4096
            invariant
                s <= pa,
                s == page_round_up(start as int),
                e == page_round_down(end as int),
                pa % 4096 == 0,
                self.wf(),
                base == old(self)@,
                self@ == base + frames_in(s as int, pa as int),
                frames_in(s as int, e as int) == frames_in(s as int, pa as int) + frames_in(pa as int, e as int),
                forall|i: int| 0 <= i < base.len() ==> !(start <= #[trigger] base[i] < end),
                start <= s,
                e <= end,
            decreases e - pa,
        {
            proof {
                lemma_frames_in_facts(pa as int, e as int);
                lemma_frames_in_facts(s as int, pa as int);
                lemma_frames_in_split(s as int, pa as int, pa + 4096);
                lemma_frames_in_len(s as int, pa as int);
                assert(!self@.contains(pa)) by {
                    if self@.contains(pa) {
                        let i = choose|i: int| 0 <= i < self@.len() && self@[i] == pa;
                        if i < base.len() {
                            assert(!(start <= base[i] < end));
                        } else {
                            assert(self@[i] == frames_in(s as int, pa as int)[i - base.len()]);
                        }
                    }
                }
            }
            self.free.push(pa);
            proof {
                assert(self@ == base + frames_in(s as int, pa + 4096));
            }
            pa = pa + 4096;
        }
        proof {
            lemma_frames_in_facts(pa as int, e as int);
            assert(self@ =~= base + frames_in(s as int, e as int));
        }
    }

    /// Number of free frames.
    pub fn free_count(&self) -> (r: usize)
        requires
            self.wf(),
        ensures
            r == self@.len(),
    {
        self.free.len()
    }
}

proof fn lemma_frames_in_facts(s: int, e: int)
    ensures
        s + 4096 > e ==> frames_in(s, e) == Seq::<u64>::empty(),
        s + 4096 <= e ==> frames_in(s, e) == seq![s as u64] + frames_in(s + 4096, e),
{
}

/// Frames of `[s, m)` followed by those of `[m, e)` are those of `[s, e)`
/// when `m` lies on the grid from `s`.
proof fn lemma_frames_in_split(s: int, m: int, e: int)
    requires
        s <= m <= e,
        (m - s) % 4096 == 0,
        e == m + 4096,
    ensures
        frames_in(s, e) == frames_in(s, m) + seq![m as u64],
    decreases m - s,
{
    if s == m {
        assert(frames_in(m, e) == seq![m as u64] + frames_in(m + 4096, e));
        assert(frames_in(m + 4096, e) == Seq::<u64>::empty());
        assert(frames_in(s, m) == Seq::<u64>::empty());
        assert(frames_in(s, e) =~= frames_in(s, m) + seq![m as u64]);
    } else {
        lemma_frames_in_split(s + 4096, m, e);
        assert(frames_in(s, e) =~= frames_in(s, m) + seq![m as u64]);
    }
}

proof fn lemma_frames_in_len(s: int, m: int)
    requires
        0 <= s <= m <= u64::MAX,
        (m - s) % 4096 == 0,
    ensures
        frames_in(s, m).len() == (m - s) / 4096,
        forall|i: int| 0 <= i < frames_in(s, m).len() ==> #[trigger] frames_in(s, m)[i] == s + 4096 * i,
    decreases m - s,
{
    if s < m {
        assert(m - s >= 4096);
        lemma_frames_in_facts(s, m);
        assert(frames_in(s, m) == seq![s as u64] + frames_in(s + 4096, m));
        lemma_frames_in_len(s + 4096, m);
        assert forall|i: int| 0 <= i < frames_in(s, m).len() implies #[trigger] frames_in(s, m)[i] == s + 4096 * i by {
            if i > 0 {
                assert(frames_in(s, m)[i] == frames_in(s + 4096, m)[i - 1]);
            }
        }
    }
}

impl FrameAllocator for FrameAllocImpl {
    closed spec fn frames(&self) -> Seq<u64> {
        self.free@
    }

    closed spec fn frames_wf(&self) -> bool {
        self.wf()
    }

    fn alloc_zeroed(&mut self) -> (r: Option<u64>) {
        match self.free.pop() {
            Some(pa) => {
                proof {
                    assert(self.free@ =~= old(self).free@.drop_last());
                    assert forall|i: int| 0 <= i < self.free@.len() implies #[trigger] self.free@[i] % 4096 == 0 by {
                        assert(self.free@[i] == old(self).free@[i]);
                    }
                }
                Some(pa)
            },
            None => None,
        }
    }

    fn free(&mut self, pa: u64) {
        self.free.push(pa);
    }
}

} // verus!
