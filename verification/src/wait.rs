//! Parked wakers, named by the id of the task they wake.

use vstd::prelude::*;

verus! {

/// One parked waker at most; a new registration replaces the old one.
pub struct WakerCell {
    pub slot: Option<u64>,
}

impl WakerCell {
    pub fn new() -> (r: Self)
        ensures
            r.slot is None,
    {
        WakerCell { slot: None }
    }

    /// Parks task `w` (last registration wins).
    pub fn register(&mut self, w: u64)
        ensures
            final(self).slot == Some(w),
    {
        if self.slot == Some(w) {
            return;
        }
        self.slot = Some(w);
    }

    /// Takes the parked task, if any, to be woken; the slot is empty
    /// afterwards.
    pub fn wake(&mut self) -> (r: Option<u64>)
        ensures
            r == old(self).slot,
            final(self).slot is None,
    {
        let w = self.slot;
        self.slot = None;
        w
    }
}

/// Any number of parked wakers, each task at most once.
pub struct WakerList {
    pub list: Vec<u64>,
}

impl WakerList {
    pub fn new() -> (r: Self)
        ensures
            r.list@.len() == 0,
    {
        WakerList { list: Vec::new() }
    }

    /// Parks task `w` unless it is parked already.
    pub fn register(&mut self, w: u64)
        ensures
            old(self).list@.contains(w) ==> final(self).list@ == old(self).list@,
            !old(self).list@.contains(w) ==> final(self).list@ == old(self).list@.push(w),
    {
        let n: usize = self.list.len();
        let mut i: usize = 0;
        while i < n
            invariant
                n == self.list@.len(),
                self.list@ == old(self).list@,
                i <= n,
                forall|j: int| 0 <= j < i ==> self.list@[j] != w,
            decreases n - i,
        {
            if self.list[i] == w {
                return;
            }
            i = i + 1;
        }
        self.list.push(w);
    }

    /// Takes every parked task, in the order they parked, to be woken;
    /// the list is empty afterwards.
    pub fn wake_all(&mut self) -> (r: Vec<u64>)
        ensures
            r@ == old(self).list@,
            final(self).list@.len() == 0,
    {
        let mut out: Vec<u64> = Vec::new();
        std::mem::swap(&mut out, &mut self.list);
        out
    }
}

/// A task is parked at most once in a list built by `register`.
pub proof fn law_register_idempotent(l: Seq<u64>, w: u64)
    requires
        l.no_duplicates(),
    ensures
        (if l.contains(w) {
            l
        } else {
            l.push(w)
        }).no_duplicates(),
{
    if !l.contains(w) {
        assert forall|a: int, b: int| 0 <= a < b < l.len() + 1 implies l.push(w)[a] != l.push(w)[b] by {
            if b == l.len() {
                assert(l.push(w)[a] == l[a]);
            }
        }
    }
}

} // verus!
