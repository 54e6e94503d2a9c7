//! Timer queue and alarm queue, each kept in ascending deadline order
//! (equal deadlines in arrival order).

use vstd::prelude::*;

verus! {

/// Deadlines ascend.
pub open spec fn sorted_by_deadline<T>(s: Seq<(u64, T)>) -> bool {
    forall|i: int, j: int| 0 <= i < j < s.len() ==> #[trigger] s[i].0 <= #[trigger] s[j].0
}

/// Sleeping tasks: `(deadline, task)`.
pub struct TimerQueue {
    pub entries: Vec<(u64, u64)>,
}

/// A pending alarm: `(deadline, (pid, generation))`.
pub struct AlarmQueue {
    pub entries: Vec<(u64, (u64, u32))>,
}

/// Where an entry due at `d` goes: after every entry due at or before
/// `d`.
pub open spec fn insert_point<T>(s: Seq<(u64, T)>, d: u64, p: int) -> bool {
    &&& 0 <= p <= s.len()
    &&& forall|i: int| 0 <= i < p ==> #[trigger] s[i].0 <= d
    &&& forall|i: int| p <= i < s.len() ==> #[trigger] s[i].0 > d
}

/// Inserts `e` due at `e.0` in order.
fn insert_sorted<T: Copy>(v: &mut Vec<(u64, T)>, e: (u64, T)) -> (p: usize)
    requires
        sorted_by_deadline(old(v)@),
    ensures
        insert_point(old(v)@, e.0, p as int),
        final(v)@ == old(v)@.insert(p as int, e),
        sorted_by_deadline(final(v)@),
{
    let n: usize = v.len();
    let mut p: usize = 0;
    while p < n && v[p].0 <= e.0
        invariant
            n == v@.len(),
            v@ == old(v)@,
            p <= n,
            forall|i: int| 0 <= i < p ==> #[trigger] v@[i].0 <= e.0,
        decreases n - p,
    {
        p = p + 1;
    }
    proof {
        assert forall|i: int| p <= i < n implies #[trigger] v@[i].0 > e.0 by {
            assert(v@[p as int].0 <= v@[i].0);
        }
    }
    v.insert(p, e);
    proof {
        let s = v@;
        let o = old(v)@;
        assert forall|i: int, j: int| 0 <= i < j < s.len() implies #[trigger] s[i].0 <= #[trigger] s[j].0 by {
            if j < p {
                assert(s[i] == o[i] && s[j] == o[j]);
            } else if j == p {
                assert(s[i] == o[i]);
            } else if i < p {
                assert(s[i] == o[i] && s[j] == o[j - 1]);
            } else if i == p {
                assert(s[j] == o[j - 1]);
            } else {
                assert(s[i] == o[i - 1] && s[j] == o[j - 1]);
            }
        }
    }
    p
}

/// Removes the entries due by `now` (a prefix) and returns them in
/// order.
fn drain_due<T: Copy>(v: &mut Vec<(u64, T)>, now: u64) -> (r: Vec<(u64, T)>)
    requires
        sorted_by_deadline(old(v)@),
    ensures
        sorted_by_deadline(final(v)@),
        old(v)@ == r@ + final(v)@,
        forall|i: int| 0 <= i < r@.len() ==> #[trigger] r@[i].0 <= now,
        final(v)@.len() > 0 ==> final(v)@[0].0 > now,
{
    let mut out: Vec<(u64, T)> = Vec::new();
    while v.len() > 0 && v[0].0 <= now
        invariant
            sorted_by_deadline(v@),
            old(v)@ == out@ + v@,
            forall|i: int| 0 <= i < out@.len() ==> #[trigger] out@[i].0 <= now,
        decreases v@.len(),
    {
        let ghost v0 = v@;
        let e = v.remove(0);
        out.push(e);
        proof {
            assert(v@ =~= v0.drop_first());
            assert(old(v)@ =~= out@ + v@);
            assert forall|i: int, j: int| 0 <= i < j < v@.len() implies #[trigger] v@[i].0 <= #[trigger] v@[j].0 by {
                assert(v@[i] == v0[i + 1] && v@[j] == v0[j + 1]);
            }
        }
    }
    out
}


impl TimerQueue {
    pub fn new() -> (r: Self)
        ensures
            r.entries@.len() == 0,
    {
        TimerQueue { entries: Vec::new() }
    }
}

impl AlarmQueue {
    pub fn new() -> (r: Self)
        ensures
            r.entries@.len() == 0,
    {
        AlarmQueue { entries: Vec::new() }
    }
}

/// Parks task `waker` until `deadline`.
pub fn add_timer(q: &mut TimerQueue, deadline: u64, waker: u64)
    requires
        sorted_by_deadline(old(q).entries@),
    ensures
        sorted_by_deadline(final(q).entries@),
        exists|p: int|
            #[trigger] insert_point(old(q).entries@, deadline, p) && final(q).entries@ == old(q).entries@.insert(
                p,
                (deadline, waker),
            ),
{
    let p = insert_sorted(&mut q.entries, (deadline, waker));
    proof {
        assert(insert_point(old(q).entries@, deadline, p as int));
    }
}

/// Takes the tasks whose deadline has passed at `now`, earliest first.
pub fn drain_expired(q: &mut TimerQueue, now: u64) -> (r: Vec<(u64, u64)>)
    requires
        sorted_by_deadline(old(q).entries@),
    ensures
        sorted_by_deadline(final(q).entries@),
        old(q).entries@ == r@ + final(q).entries@,
        forall|i: int| 0 <= i < r@.len() ==> #[trigger] r@[i].0 <= now,
        final(q).entries@.len() > 0 ==> final(q).entries@[0].0 > now,
{
    drain_due(&mut q.entries, now)
}

/// Schedules an alarm for process `pid` at `deadline`, tagged with the
/// process's alarm generation.
pub fn add_alarm(q: &mut AlarmQueue, deadline: u64, pid: u64, generation: u32)
    requires
        sorted_by_deadline(old(q).entries@),
    ensures
        sorted_by_deadline(final(q).entries@),
        exists|p: int|
            #[trigger] insert_point(old(q).entries@, deadline, p) && final(q).entries@ == old(q).entries@.insert(
                p,
                (deadline, (pid, generation)),
            ),
{
    let p = insert_sorted(&mut q.entries, (deadline, (pid, generation)));
    proof {
        assert(insert_point(old(q).entries@, deadline, p as int));
    }
}

/// Takes the alarms due by `now`, earliest first.
pub fn drain_expired_alarms(q: &mut AlarmQueue, now: u64) -> (r: Vec<(u64, (u64, u32))>)
    requires
        sorted_by_deadline(old(q).entries@),
    ensures
        sorted_by_deadline(final(q).entries@),
        old(q).entries@ == r@ + final(q).entries@,
        forall|i: int| 0 <= i < r@.len() ==> #[trigger] r@[i].0 <= now,
        final(q).entries@.len() > 0 ==> final(q).entries@[0].0 > now,
{
    drain_due(&mut q.entries, now)
}

/// An alarm tagged `generation` still counts for a process whose
/// current alarm generation is `current`.
pub fn alarm_current(generation: u32, current: u32) -> (r: bool)
    ensures
        r == (generation == current),
{
    generation == current
}

} // verus!
