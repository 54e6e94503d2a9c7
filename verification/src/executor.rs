//! Per-CPU task executor bookkeeping. A task id packs the home CPU in
//! its high 8 bits and the slot in that CPU's task table in the low 24,
//! so a wake-up finds the right ready queue without a global table.

use vstd::prelude::*;

use crate::riscv::MAX_CPUS;

verus! {

pub const CPU_BITS: u32 = 8;
pub const SLOT_MASK: u32 = 0xff_ffff;

/// Task id of slot `slot` on CPU `cpu`.
pub open spec fn tid_of(cpu: u32, slot: u32) -> u32 {
    (cpu << 24u32) | slot
}

/// Packs a CPU and a slot into a task id.
pub fn make_tid(cpu: u32, slot: u32) -> (r: u32)
    requires
        cpu < 256,
        slot <= SLOT_MASK,
    ensures
        r == tid_of(cpu, slot),
{
    (cpu << 24u32) | slot
}

/// Home CPU of a task id.
pub fn tid_cpu(tid: u32) -> (r: u32)
    ensures
        r == tid >> 24u32,
{
    tid >> 24u32
}

/// Slot of a task id.
pub fn tid_slot(tid: u32) -> (r: u32)
    ensures
        r == tid & SLOT_MASK,
{
    tid & SLOT_MASK
}

/// A task id gives back the CPU and slot it was made from.
pub proof fn law_tid_roundtrip(cpu: u32, slot: u32)
    requires
        cpu < 256,
        slot <= SLOT_MASK,
    ensures
        tid_of(cpu, slot) >> 24u32 == cpu,
        tid_of(cpu, slot) & SLOT_MASK == slot,
{
    assert(cpu < 256 && slot <= 0xff_ffff ==> ((cpu << 24u32) | slot) >> 24u32 == cpu && ((cpu << 24u32) | slot)
        & 0xff_ffffu32 == slot) by (bit_vector);
}

/// A task as the executor sees it: the process it runs for, if any.
#[derive(Clone, Copy, Debug, PartialEq, Eq, Structural)]
pub struct TaskInfo {
    pub pid: Option<u64>,
}

/// One CPU's tasks and ready queue.
pub struct PerCpuExec {
    pub tasks: Vec<Option<TaskInfo>>,
    pub ready: Vec<u32>,
    pub next_slot: u32,
}

/// All CPUs' executors.
pub struct Executor {
    pub execs: Vec<PerCpuExec>,
}

impl Executor {
    pub open spec fn wf(&self) -> bool {
        &&& self.execs@.len() == MAX_CPUS
        &&& forall|c: int| 0 <= c < MAX_CPUS ==> (#[trigger] self.execs@[c]).tasks@.len() <= self.execs@[c].next_slot
    }
}

/// Hart `c` is marked in mask `active`.
pub open spec fn is_active(active: u64, c: int) -> bool {
    active & (1u64 << (c as u64)) != 0
}

/// The home CPU for a new task: among the active harts (bits of
/// `active`), the first with the shortest ready queue; hart 0 when none
/// is active yet.
pub fn pick_home_cpu(active: u64, ready_lens: &[usize]) -> (r: usize)
    requires
        ready_lens@.len() == MAX_CPUS,
        active < 256,
    ensures
        active == 0 ==> r == 0,
        active != 0 ==> {
            &&& r < MAX_CPUS
            &&& is_active(active, r as int)
            &&& forall|c: int|
                0 <= c < MAX_CPUS && #[trigger] is_active(active, c) ==> ready_lens@[r as int] <= ready_lens@[c]
            &&& forall|c: int|
                0 <= c < r && #[trigger] is_active(active, c) ==> ready_lens@[r as int] < ready_lens@[c]
        },
{
    if active == 0 {
        return 0;
    }
    let mut best: usize = MAX_CPUS;
    let mut c: usize = 0;
    while c < MAX_CPUS
        invariant
            ready_lens@.len() == MAX_CPUS,
            c <= MAX_CPUS,
            best == MAX_CPUS || (best < c && is_active(active, best as int)),
            best == MAX_CPUS ==> forall|d: int| 0 <= d < c ==> !#[trigger] is_active(active, d),
            best < MAX_CPUS ==> forall|d: int|
                0 <= d < c && #[trigger] is_active(active, d) ==> ready_lens@[best as int] <= ready_lens@[d],
            best < MAX_CPUS ==> forall|d: int|
                0 <= d < best && #[trigger] is_active(active, d) ==> ready_lens@[best as int] < ready_lens@[d],
        decreases MAX_CPUS - c,
    {
        let on: bool = active & (1u64 << (c as u64)) != 0;
        assert(on == is_active(active, c as int));
        if on {
            if best == MAX_CPUS || ready_lens[c] < ready_lens[best] {
                best = c;
            }
        }
        c = c + 1;
    }
    proof {
        if best == MAX_CPUS {
            assert(!is_active(active, 0) && !is_active(active, 1) && !is_active(active, 2) && !is_active(active, 3)
                && !is_active(active, 4) && !is_active(active, 5) && !is_active(active, 6) && !is_active(active, 7));
            assert(active < 256 && active & (1u64 << 0u64) == 0 && active & (1u64 << 1u64) == 0 && active & (1u64
                << 2u64) == 0 && active & (1u64 << 3u64) == 0 && active & (1u64 << 4u64) == 0 && active & (1u64
                << 5u64) == 0 && active & (1u64 << 6u64) == 0 && active & (1u64 << 7u64) == 0 ==> active == 0)
                by (bit_vector);
        }
    }
    best
}

/// Adds a task for process `pid` (or a kernel task) on CPU `home`:
/// takes the CPU's next slot, records the task there and queues it.
pub fn insert_task(ex: &mut Executor, home: usize, pid: Option<u64>) -> (tid: u32)
    requires
        old(ex).wf(),
        home < MAX_CPUS,
        old(ex).execs@[home as int].next_slot < SLOT_MASK,
    ensures
        final(ex).wf(),
        ({
            let slot = old(ex).execs@[home as int].next_slot;
            let e = final(ex).execs@[home as int];
            &&& tid == tid_of(home as u32, slot)
            &&& e.next_slot == slot + 1
            &&& e.tasks@.len() == slot + 1
            &&& e.tasks@[slot as int] == Some(TaskInfo { pid })
            &&& forall|k: int| 0 <= k < old(ex).execs@[home as int].tasks@.len() ==> #[trigger] e.tasks@[k] == old(
                ex,
            ).execs@[home as int].tasks@[k]
            &&& e.ready@ == old(ex).execs@[home as int].ready@.push(tid)
        }),
        forall|c: int| 0 <= c < MAX_CPUS && c != home ==> #[trigger] final(ex).execs@[c] == old(ex).execs@[c],
{
    let slot: u32 = ex.execs[home].next_slot;
    let tid = make_tid(home as u32, slot);
    let mut e = PerCpuExec { tasks: Vec::new(), ready: Vec::new(), next_slot: 0 };
    std::mem::swap(&mut e, &mut ex.execs[home]);
    let ghost t0 = e.tasks@;
    let ghost r0 = e.ready@;
    assert(t0 == old(ex).execs@[home as int].tasks@);
    assert(r0 == old(ex).execs@[home as int].ready@);
    while e.tasks.len() <= slot as usize
        invariant
            e.tasks@.len() <= slot + 1,
            e.ready@ == r0,
            t0.len() <= e.tasks@.len(),
            forall|k: int| 0 <= k < t0.len() ==> #[trigger] e.tasks@[k] == t0[k],
        decreases slot + 1 - e.tasks@.len(),
    {
        e.tasks.push(None);
    }
    e.tasks.set(slot as usize, Some(TaskInfo { pid }));
    e.ready.push(tid);
    e.next_slot = slot + 1;
    std::mem::swap(&mut e, &mut ex.execs[home]);
    tid
}

/// Queues task `tid` on its home CPU.
pub fn wake(ex: &mut Executor, tid: u32)
    requires
        old(ex).wf(),
        tid >> 24u32 < MAX_CPUS,
    ensures
        final(ex).wf(),
        ({
            let c = (tid >> 24u32) as int;
            &&& final(ex).execs@[c].ready@ == old(ex).execs@[c].ready@.push(tid)
            &&& final(ex).execs@[c].tasks == old(ex).execs@[c].tasks
            &&& final(ex).execs@[c].next_slot == old(ex).execs@[c].next_slot
            &&& forall|d: int| 0 <= d < MAX_CPUS && d != c ==> #[trigger] final(ex).execs@[d] == old(ex).execs@[d]
        }),
{
    let c: usize = tid_cpu(tid) as usize;
    let mut e = PerCpuExec { tasks: Vec::new(), ready: Vec::new(), next_slot: 0 };
    std::mem::swap(&mut e, &mut ex.execs[c]);
    e.ready.push(tid);
    std::mem::swap(&mut e, &mut ex.execs[c]);
}

/// Spawns a kernel task (no process) on CPU `cpu`.
pub fn spawn_kernel_on(ex: &mut Executor, cpu: usize) -> (tid: u32)
    requires
        old(ex).wf(),
        cpu < MAX_CPUS,
        old(ex).execs@[cpu as int].next_slot < SLOT_MASK,
    ensures
        final(ex).wf(),
        tid == tid_of(cpu as u32, old(ex).execs@[cpu as int].next_slot),
        final(ex).execs@[cpu as int].tasks@[old(ex).execs@[cpu as int].next_slot as int] == Some(
            TaskInfo { pid: None },
        ),
        final(ex).execs@[cpu as int].ready@ == old(ex).execs@[cpu as int].ready@.push(tid),
{
    insert_task(ex, cpu, None)
}

/// `c` is the CPU that `pick_home_cpu` chooses for `ex` under the
/// active mask: the first active hart with the shortest ready queue, or
/// hart 0 when none is active.
pub open spec fn home_choice(ex: &Executor, active: u64, c: int) -> bool {
    &&& active == 0 ==> c == 0
    &&& active != 0 ==> {
        &&& 0 <= c < MAX_CPUS
        &&& is_active(active, c)
        &&& forall|d: int|
            0 <= d < MAX_CPUS && #[trigger] is_active(active, d) ==> ex.execs@[c].ready@.len()
                <= ex.execs@[d].ready@.len()
        &&& forall|d: int|
            0 <= d < c && #[trigger] is_active(active, d) ==> ex.execs@[c].ready@.len() < ex.execs@[d].ready@.len()
    }
}

/// A new task `tid` for `pid` went to CPU `c`, the next slot there: it
/// is in that CPU's table and at the back of its ready queue, and no
/// other CPU changed.
pub open spec fn placed(before: &Executor, after: &Executor, c: int, tid: u32, pid: Option<u64>) -> bool {
    let slot = before.execs@[c].next_slot;
    &&& tid == tid_of(c as u32, slot)
    &&& after.execs@[c].tasks@[slot as int] == Some(TaskInfo { pid })
    &&& after.execs@[c].ready@ == before.execs@[c].ready@.push(tid)
    &&& forall|d: int| 0 <= d < MAX_CPUS && d != c ==> #[trigger] after.execs@[d] == before.execs@[d]
}

/// Ready-queue lengths of every CPU.
fn ready_lens(ex: &Executor) -> (r: Vec<usize>)
    requires
        ex.wf(),
    ensures
        r@.len() == MAX_CPUS,
        forall|c: int| 0 <= c < MAX_CPUS ==> #[trigger] r@[c] == ex.execs@[c].ready@.len(),
{
    let mut lens: Vec<usize> = Vec::new();
    let mut c: usize = 0;
    while c < MAX_CPUS
        invariant
            c <= MAX_CPUS,
            lens@.len() == c,
            ex.wf(),
            forall|d: int| 0 <= d < c ==> #[trigger] lens@[d] == ex.execs@[d].ready@.len(),
        decreases MAX_CPUS - c,
    {
        lens.push(ex.execs[c].ready.len());
        c = c + 1;
    }
    lens
}

/// Places a new task for `pid` (`None` for a kernel task) on the
/// least-loaded active CPU.
pub(crate) fn spawn_placed(ex: &mut Executor, active: u64, pid: Option<u64>) -> (tid: u32)
    requires
        old(ex).wf(),
        active < 256,
        forall|c: int| 0 <= c < MAX_CPUS ==> (#[trigger] old(ex).execs@[c]).next_slot < SLOT_MASK,
    ensures
        final(ex).wf(),
        tid >> 24u32 < MAX_CPUS,
        home_choice(old(ex), active, (tid >> 24u32) as int),
        placed(old(ex), final(ex), (tid >> 24u32) as int, tid, pid),
{
    let lens = ready_lens(ex);
    let home = pick_home_cpu(active, lens.as_slice());
    proof {
        assert(home < MAX_CPUS);
        law_tid_roundtrip(home as u32, old(ex).execs@[home as int].next_slot);
    }
    insert_task(ex, home, pid)
}

/// Spawns a task for process `pid` on the least-loaded active CPU
/// given the active mask.
pub fn spawn(ex: &mut Executor, active: u64, pid: u64) -> (tid: u32)
    requires
        old(ex).wf(),
        active < 256,
        forall|c: int| 0 <= c < MAX_CPUS ==> (#[trigger] old(ex).execs@[c]).next_slot < SLOT_MASK,
    ensures
        final(ex).wf(),
        tid >> 24u32 < MAX_CPUS,
        home_choice(old(ex), active, (tid >> 24u32) as int),
        placed(old(ex), final(ex), (tid >> 24u32) as int, tid, Some(pid)),
{
    spawn_placed(ex, active, Some(pid))
}

/// Spawns a kernel task on the least-loaded active CPU given the
/// active mask.
pub fn spawn_kernel(ex: &mut Executor, active: u64) -> (tid: u32)
    requires
        old(ex).wf(),
        active < 256,
        forall|c: int| 0 <= c < MAX_CPUS ==> (#[trigger] old(ex).execs@[c]).next_slot < SLOT_MASK,
    ensures
        final(ex).wf(),
        tid >> 24u32 < MAX_CPUS,
        home_choice(old(ex), active, (tid >> 24u32) as int),
        placed(old(ex), final(ex), (tid >> 24u32) as int, tid, None),
{
    spawn_placed(ex, active, None)
}

/// Location `(cpu, slot)` of the first task running for process
/// `pid`, scanning CPUs in order.
pub fn find_proc_by_pid(ex: &Executor, pid: u64) -> (r: Option<(usize, usize)>)
    requires
        ex.wf(),
    ensures
        match r {
            Some((c, s)) => c < MAX_CPUS && s < ex.execs@[c as int].tasks@.len() && ex.execs@[c as int].tasks@[s as int]
                == Some(TaskInfo { pid: Some(pid) }),
            None => forall|c: int, s: int|
                0 <= c < MAX_CPUS && 0 <= s < ex.execs@[c].tasks@.len() ==> #[trigger] ex.execs@[c].tasks@[s] != Some(
                    TaskInfo { pid: Some(pid) },
                ),
        },
{
    let mut c: usize = 0;
    while c < MAX_CPUS
        invariant
            ex.wf(),
            c <= MAX_CPUS,
            forall|c2: int, s: int|
                0 <= c2 < c && 0 <= s < ex.execs@[c2].tasks@.len() ==> #[trigger] ex.execs@[c2].tasks@[s] != Some(
                    TaskInfo { pid: Some(pid) },
                ),
        decreases MAX_CPUS - c,
    {
        let n: usize = ex.execs[c].tasks.len();
        let mut s: usize = 0;
        while s < n
            invariant
                ex.wf(),
                c < MAX_CPUS,
                n == ex.execs@[c as int].tasks@.len(),
                s <= n,
                forall|s2: int| 0 <= s2 < s ==> #[trigger] ex.execs@[c as int].tasks@[s2] != Some(TaskInfo { pid: Some(pid) }),
            decreases n - s,
        {
            match ex.execs[c].tasks[s] {
                Some(t) => {
                    match t.pid {
                        Some(p) => {
                            if p == pid {
                                return Some((c, s));
                            }
                        },
                        None => {},
                    }
                },
                None => {},
            }
            s = s + 1;
        }
        c = c + 1;
    }
    None
}

/// What the run loop does with a task id taken from hart `me`'s queue.
#[derive(Clone, Copy, Debug, PartialEq, Eq, Structural)]
pub enum RunStep {
    /// The id belongs to another hart: queue it there.
    Forward(u32),
    /// Poll the task in this slot.
    Poll(usize),
    /// No task in that slot (already finished).
    Skip,
}

/// Decision for task id `tid` popped on hart `me`.
pub fn run_step(ex: &Executor, me: usize, tid: u32) -> (r: RunStep)
    requires
        ex.wf(),
        me < MAX_CPUS,
    ensures
        (tid >> 24u32) != me ==> r == RunStep::Forward(tid),
        (tid >> 24u32) == me && (tid & SLOT_MASK) < ex.execs@[me as int].tasks@.len() && ex.execs@[me as int].tasks@[(
        tid & SLOT_MASK) as int] is Some ==> r == RunStep::Poll((tid & SLOT_MASK) as usize),
        (tid >> 24u32) == me && !((tid & SLOT_MASK) < ex.execs@[me as int].tasks@.len() && ex.execs@[me as int].tasks@[(
        tid & SLOT_MASK) as int] is Some) ==> r == RunStep::Skip,
{
    if tid_cpu(tid) as usize != me {
        return RunStep::Forward(tid);
    }
    let slot: usize = tid_slot(tid) as usize;
    if slot < ex.execs[me].tasks.len() && ex.execs[me].tasks[slot].is_some() {
        RunStep::Poll(slot)
    } else {
        RunStep::Skip
    }
}

} // verus!
