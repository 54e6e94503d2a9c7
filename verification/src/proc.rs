//! Processes: address space, break, fd table, credentials and signal
//! state, and the user-mode trap hand-off.

use vstd::prelude::*;

use crate::cpu::{set_user_target, Cpu};
use crate::executor::{home_choice, placed, spawn, Executor, SLOT_MASK};
use crate::file::FdEntry;
use crate::fork::{code_pages, fork_address_space, on_page, pages_copied, stack_copied, stack_mapped_before, stack_va, user_image};
use crate::hal::{FrameAllocator, UserTrapCause};
use crate::riscv::{TrapFrame, MAX_CPUS, TRAMPOLINE, TRAPFRAME};
use crate::sv39::{alloc_ready, frames_fit, owned, satp_value, taken, PageTable};
use crate::user_vm::{STACK_PAGES, STACK_VA_BASE, STACK_VA_TOP};
use crate::uapi::SigAction;

verus! {

/// Slots in a process's fd table.
pub const NOFILE: usize = 16;

#[derive(Debug, Clone, Copy, PartialEq, Eq, Structural)]
pub enum ProcState {
    Runnable,
    Running,
    Zombie,
}

/// Why a process came back from user mode.
#[derive(Clone, Copy, Debug, PartialEq, Eq, Structural)]
pub enum TrapEvent {
    Syscall { nr: u64 },
    Timer,
    Devintr,
}

/// A process.
pub struct Proc {
    pub pid: u64,
    pub state: ProcState,
    pub exit_code: i32,
    pub pagetable: PageTable,
    pub trapframe_pa: u64,
    /// Program break: user memory is `[0, size)`.
    pub size: u64,
    pub task_id: u32,
    pub pending_trap: Option<TrapEvent>,
    pub killed: bool,
    pub files: Vec<Option<FdEntry>>,
    pub uid: u32,
    pub gid: u32,
    pub umask: u32,
    pub sig_actions: Vec<SigAction>,
    pub sig_pending: u32,
    pub sig_blocked: u32,
    /// The interrupted user registers while a signal handler runs.
    pub sig_saved_frame: Option<TrapFrame>,
    /// Blocked mask to restore when the handler returns.
    pub sig_saved_blocked: u32,
    /// Current directory as (device, inode number); `None` until the
    /// file system is up.
    pub cwd: Option<(u32, u32)>,
}

/// What the fd table says about `fd`.
pub open spec fn fd_slot(files: Seq<Option<FdEntry>>, fd: i32) -> Option<FdEntry> {
    if 0 <= fd < files.len() {
        files[fd as int]
    } else {
        None
    }
}

/// Physical address a user access to `va` reaches, if `va`'s page is
/// mapped with the user bit.
pub open spec fn user_pa(pt: &PageTable, va: u64) -> Option<u64> {
    match pt.lookup((va / 4096 * 4096) as u64) {
        Some((pa, p)) => if p & 8 != 0 {
            Some((pa + va % 4096) as u64)
        } else {
            None
        },
        None => None,
    }
}

impl Proc {
    /// `satp` value for running this process.
    pub fn satp(&self) -> (r: u64)
        ensures
            r == crate::riscv::SATP_SV39 | (self.pagetable.root() >> 12u64),
    {
        satp_value(&self.pagetable)
    }

    /// Physical address behind user address `va`, or `None` if its page
    /// is unmapped or not user-accessible.
    pub fn translate_user(&self, va: u64) -> (r: Option<u64>)
        requires
            self.pagetable.wf(),
        ensures
            r == user_pa(&self.pagetable, va),
    {
        let page: u64 = va / 4096 * 4096;
        let off: u64 = va % 4096;
        match self.pagetable.translate(page) {
            None => None,
            Some((pa, perm)) => {
                if perm.0 & 8 == 0 {
                    None
                } else {
                    proof {
                        assert(page % 4096 == 0) by (nonlinear_arith)
                            requires
                                page == va / 4096 * 4096,
                        ;
                        self.pagetable.lemma_lookup_pa_bound(page);
                    }
                    Some(pa + off)
                }
            },
        }
    }

    /// Installs a new address space and break (after `exec`); the old
    /// table is returned for the caller to reap.
    pub fn replace_image(&mut self, new_pt: PageTable, new_size: u64) -> (old_pt: PageTable)
        ensures
            old_pt == old(self).pagetable,
            final(self).pagetable == new_pt,
            final(self).size == new_size,
            final(self).trapframe_pa == old(self).trapframe_pa,
            final(self).files == old(self).files,
            final(self).pid == old(self).pid,
            final(self).state == old(self).state,
    {
        let mut old_pt = new_pt;
        std::mem::swap(&mut self.pagetable, &mut old_pt);
        self.size = new_size;
        old_pt
    }

    pub fn is_zombie(&self) -> (r: bool)
        ensures
            r == (self.state == ProcState::Zombie),
    {
        self.state == ProcState::Zombie
    }

    /// The open file behind `fd`, if any.
    pub fn get_file(&self, fd: i32) -> (r: Option<u64>)
        ensures
            r == (match fd_slot(self.files@, fd) {
                Some(e) => Some(e.file),
                None => None,
            }),
    {
        match self.get_fd_entry(fd) {
            Some(e) => Some(e.file),
            None => None,
        }
    }

    /// The fd-table entry for `fd`, if any.
    pub fn get_fd_entry(&self, fd: i32) -> (r: Option<FdEntry>)
        ensures
            r == fd_slot(self.files@, fd),
    {
        if fd < 0 {
            return None;
        }
        let i: usize = fd as usize;
        if i >= self.files.len() {
            return None;
        }
        self.files[i]
    }

    /// Installs `entry` in the lowest free slot numbered at least
    /// `start`; returns the fd, or `None` if there is none.
    pub fn alloc_fd_entry_from(&mut self, entry: FdEntry, start: i32) -> (r: Option<i32>)
        requires
            old(self).files@.len() <= i32::MAX,
        ensures
            final(self).pagetable == old(self).pagetable,
            final(self).sig_actions == old(self).sig_actions,
            final(self).pid == old(self).pid,
            match r {
                Some(fd) => {
                    &&& start <= fd
                    &&& 0 <= fd < old(self).files@.len()
                    &&& old(self).files@[fd as int] is None
                    &&& forall|j: int| (start as int) <= j < fd && 0 <= j ==> old(self).files@[j] is Some
                    &&& final(self).files@ == old(self).files@.update(fd as int, Some(entry))
                },
                None => {
                    &&& final(self).files@ == old(self).files@
                    &&& forall|j: int| (start as int) <= j < old(self).files@.len() && 0 <= j ==> old(self).files@[j] is Some
                },
            },
    {
        let n: usize = self.files.len();
        let mut i: usize = if start < 0 {
            0
        } else {
            start as usize
        };
        while i < n
            invariant
                n == self.files@.len(),
                n <= i32::MAX,
                self.files@ == old(self).files@,
                self.pagetable == old(self).pagetable,
                self.sig_actions == old(self).sig_actions,
                self.pid == old(self).pid,
                (start as int) <= i,
                forall|j: int| (start as int) <= j < i && 0 <= j ==> old(self).files@[j] is Some,
            decreases n - i,
        {
            if self.files[i].is_none() {
                self.files.set(i, Some(entry));
                return Some(i as i32);
            }
            i = i + 1;
        }
        None
    }

    /// Installs `entry` in the lowest free slot.
    pub fn alloc_fd_entry(&mut self, entry: FdEntry) -> (r: Option<i32>)
        requires
            old(self).files@.len() <= i32::MAX,
        ensures
            final(self).pagetable == old(self).pagetable,
            final(self).sig_actions == old(self).sig_actions,
            final(self).pid == old(self).pid,
            match r {
                Some(fd) => {
                    &&& 0 <= fd < old(self).files@.len()
                    &&& old(self).files@[fd as int] is None
                    &&& forall|j: int| 0 <= j < fd ==> old(self).files@[j] is Some
                    &&& final(self).files@ == old(self).files@.update(fd as int, Some(entry))
                },
                None => final(self).files@ == old(self).files@ && forall|j: int|
                    0 <= j < old(self).files@.len() ==> old(self).files@[j] is Some,
            },
    {
        self.alloc_fd_entry_from(entry, 0)
    }

    /// Installs open file `file` (flags clear) in the lowest free slot.
    pub fn alloc_fd(&mut self, file: u64) -> (r: Option<i32>)
        requires
            old(self).files@.len() <= i32::MAX,
        ensures
            final(self).pagetable == old(self).pagetable,
            final(self).sig_actions == old(self).sig_actions,
            final(self).pid == old(self).pid,
            match r {
                Some(fd) => {
                    &&& 0 <= fd < old(self).files@.len()
                    &&& old(self).files@[fd as int] is None
                    &&& forall|j: int| 0 <= j < fd ==> old(self).files@[j] is Some
                    &&& final(self).files@ == old(self).files@.update(
                        fd as int,
                        Some(FdEntry { file, cloexec: false, nonblock: false }),
                    )
                },
                None => final(self).files@ == old(self).files@ && forall|j: int|
                    0 <= j < old(self).files@.len() ==> old(self).files@[j] is Some,
            },
    {
        self.alloc_fd_entry(FdEntry::new(file))
    }

    /// Closes `fd`: 0 if it was open, -1 otherwise.
    pub fn close_fd(&mut self, fd: i32) -> (r: i64)
        ensures
            final(self).pagetable == old(self).pagetable,
            final(self).sig_actions == old(self).sig_actions,
            final(self).pid == old(self).pid,
            fd_slot(old(self).files@, fd) is Some ==> r == 0 && final(self).files@ == old(self).files@.update(
                fd as int,
                None,
            ),
            fd_slot(old(self).files@, fd) is None ==> r == -1 && final(self).files@ == old(self).files@,
    {
        if fd < 0 {
            return -1;
        }
        let i: usize = fd as usize;
        if i >= self.files.len() {
            return -1;
        }
        if self.files[i].is_some() {
            self.files.set(i, None);
            0
        } else {
            -1
        }
    }

    /// Sets or clears close-on-exec on `fd`; false if `fd` is not open.
    pub fn set_fd_cloexec(&mut self, fd: i32, on: bool) -> (r: bool)
        ensures
            final(self).pagetable == old(self).pagetable,
            final(self).sig_actions == old(self).sig_actions,
            r == fd_slot(old(self).files@, fd) is Some,
            r ==> final(self).files@ == old(self).files@.update(
                fd as int,
                Some(FdEntry { cloexec: on, ..fd_slot(old(self).files@, fd)->0 }),
            ),
            !r ==> final(self).files@ == old(self).files@,
    {
        match self.get_fd_entry(fd) {
            None => false,
            Some(e) => {
                self.files.set(fd as usize, Some(FdEntry { cloexec: on, ..e }));
                true
            },
        }
    }

    /// Sets or clears non-blocking mode on `fd`; false if not open.
    pub fn set_fd_nonblock(&mut self, fd: i32, on: bool) -> (r: bool)
        ensures
            final(self).pagetable == old(self).pagetable,
            final(self).sig_actions == old(self).sig_actions,
            r == fd_slot(old(self).files@, fd) is Some,
            r ==> final(self).files@ == old(self).files@.update(
                fd as int,
                Some(FdEntry { nonblock: on, ..fd_slot(old(self).files@, fd)->0 }),
            ),
            !r ==> final(self).files@ == old(self).files@,
    {
        match self.get_fd_entry(fd) {
            None => false,
            Some(e) => {
                self.files.set(fd as usize, Some(FdEntry { nonblock: on, ..e }));
                true
            },
        }
    }
}

/// The user-mode leg of a process: hands back the trap that ended it,
/// or `None` when the process is still to run in user mode.
pub struct UserMode {
    pub pid: u64,
}

impl UserMode {
    /// One poll of the process's user-mode future on the hart `cpu`: the
    /// trap it has pending, taken, with the hart left alone; or, with no
    /// trap pending, `None` (the future waits) after the hart is told to
    /// enter user mode for this process.
    pub fn run(proc: &mut Proc, cpu: &mut Cpu) -> (r: Option<TrapEvent>)
        ensures
            r == old(proc).pending_trap,
            final(proc).pending_trap is None,
            final(proc).files == old(proc).files,
            final(proc).pagetable == old(proc).pagetable,
            final(proc).pid == old(proc).pid,
            old(proc).pending_trap is Some ==> *final(cpu) == *old(cpu),
            old(proc).pending_trap is None ==> *final(cpu) == (Cpu { user_target: Some(old(proc).pid), ..*old(cpu) }),
    {
        let ev = proc.pending_trap;
        proc.pending_trap = None;
        if ev.is_none() {
            set_user_target(cpu, proc.pid);
        }
        ev
    }
}

/// What a trap from user mode becomes for the process's task: the event
/// to hand it, and whether the process is to be killed. A page fault the
/// lazy heap resolved (`fault_mapped`) just resumes; any other fault, or
/// an unknown cause, kills.
pub fn user_trap_event(cause: UserTrapCause, nr: u64, fault_mapped: bool) -> (r: (TrapEvent, bool))
    ensures
        r == match cause {
            UserTrapCause::Syscall => (TrapEvent::Syscall { nr }, false),
            UserTrapCause::Timer => (TrapEvent::Timer, false),
            UserTrapCause::Devintr => (TrapEvent::Devintr, false),
            UserTrapCause::PageFault { .. } => (TrapEvent::Timer, !fault_mapped),
            UserTrapCause::Unknown { .. } => (TrapEvent::Timer, true),
        },
{
    match cause {
        UserTrapCause::Syscall => (TrapEvent::Syscall { nr }, false),
        UserTrapCause::Timer => (TrapEvent::Timer, false),
        UserTrapCause::Devintr => (TrapEvent::Devintr, false),
        UserTrapCause::PageFault { .. } => (TrapEvent::Timer, !fault_mapped),
        UserTrapCause::Unknown { .. } => (TrapEvent::Timer, true),
    }
}

impl Proc {
    /// `exit(code)`: every descriptor is dropped, the address space is
    /// swapped for the empty table `empty_pt` (the caller frees the old
    /// one, which is returned), and the process becomes a zombie holding
    /// `code`.
    pub fn exit(&mut self, code: i32, empty_pt: PageTable) -> (old_pt: PageTable)
        ensures
            old_pt == old(self).pagetable,
            final(self).pagetable == empty_pt,
            final(self).files@.len() == 0,
            final(self).exit_code == code,
            final(self).state == ProcState::Zombie,
            final(self).pid == old(self).pid,
            final(self).size == old(self).size,
    {
        self.files.clear();
        let mut old_pt = empty_pt;
        std::mem::swap(&mut self.pagetable, &mut old_pt);
        self.exit_code = code;
        self.state = ProcState::Zombie;
        old_pt
    }
}

/// Starts running `proc`: a task for its pid on the least-loaded active
/// CPU (see `executor::spawn`); the task id is recorded in the process
/// and returned.
pub fn spawn_proc_main(ex: &mut Executor, active: u64, proc: &mut Proc) -> (tid: u32)
    requires
        old(ex).wf(),
        active < 256,
        forall|c: int| 0 <= c < MAX_CPUS ==> (#[trigger] old(ex).execs@[c]).next_slot < SLOT_MASK,
    ensures
        final(ex).wf(),
        tid >> 24u32 < MAX_CPUS,
        home_choice(old(ex), active, (tid >> 24u32) as int),
        placed(old(ex), final(ex), (tid >> 24u32) as int, tid, Some(old(proc).pid)),
        final(proc).task_id == tid,
        final(proc).pid == old(proc).pid,
        final(proc).state == old(proc).state,
        final(proc).pagetable == old(proc).pagetable,
        final(proc).size == old(proc).size,
        final(proc).files == old(proc).files,
{
    let tid = spawn(ex, active, proc.pid);
    proc.task_id = tid;
    tid
}

impl Proc {
    /// Tears down a reaped process: the frames to give back to the frame
    /// allocator — those of its page table (table pages and user pages,
    /// see `PageTable::reap`), then its trapframe page if it has one.
    pub fn release(self) -> (r: Vec<u64>)
        requires
            self.pagetable.wf(),
        ensures
            r@ == self.pagetable.table_pas() + self.pagetable.user_frames() + if self.trapframe_pa != 0 {
                seq![self.trapframe_pa]
            } else {
                Seq::empty()
            },
            r@.to_multiset() == if self.trapframe_pa != 0 {
                owned(&self.pagetable).insert(self.trapframe_pa)
            } else {
                owned(&self.pagetable)
            },
    {
        let tf = self.trapframe_pa;
        let mut r = self.pagetable.reap();
        if tf != 0 {
            r.push(tf);
        }
        proof {
            broadcast use vstd::multiset::group_multiset_axioms;
            broadcast use vstd::seq_lib::group_seq_properties;

            let t = self.pagetable.table_pas();
            let u = self.pagetable.user_frames();
            assert(r@ =~= t + u + if tf != 0 {
                seq![tf]
            } else {
                Seq::<u64>::empty()
            });
            vstd::seq_lib::lemma_multiset_commutative(t, u);
            if tf != 0 {
                assert((t + u).push(tf) =~= t + u + seq![tf]);
            } else {
                assert(t + u + Seq::<u64>::empty() =~= t + u);
            }
        }
        r
    }
}

/// Nothing leaks: when the frames handed out by the allocator (from
/// `f0` down to `f1`) for a process are exactly what its page table
/// owns plus its trap frame — what `build_image_from_elf` and
/// `fork_address_space` state — the frames `release` gives back (`r`)
/// are exactly those frames, so freeing them restores the free count.
pub proof fn law_release_returns_taken(p: &Proc, f0: Seq<u64>, f1: Seq<u64>, r: Seq<u64>)
    requires
        p.trapframe_pa != 0,
        owned(&p.pagetable).insert(p.trapframe_pa) == taken(f0, f1).to_multiset(),
        r.to_multiset() == owned(&p.pagetable).insert(p.trapframe_pa),
    ensures
        r.to_multiset() == taken(f0, f1).to_multiset(),
        r.len() == f0.len() - f1.len() || f1.len() > f0.len(),
{
    broadcast use vstd::seq_lib::group_seq_properties;

    r.to_multiset_ensures();
    taken(f0, f1).to_multiset_ensures();
}

/// No frame leaks over fork, exec, exit and wait. The allocator's free
/// frames go from `f0` to `f1` while `fork_from` builds the child (its
/// table `fork_pt` and trap frame `tf`; see its accounting clause), then
/// to `f2` while the child's `exec` builds `exec_pt` with
/// `build_image_from_elf` (keeping `tf`). `exec` hands back the old
/// table (`replace_image`), whose `reap` gives `r1`; after exit the
/// parent's wait `release`s the child, giving `r2`. Together `r1` and
/// `r2` are exactly the frames handed out, so freeing them brings the
/// free count back to where it started.
pub proof fn law_fork_exec_exit_frees_all(
    f0: Seq<u64>,
    f1: Seq<u64>,
    f2: Seq<u64>,
    fork_pt: &PageTable,
    exec_pt: &PageTable,
    tf: u64,
    r1: Seq<u64>,
    r2: Seq<u64>,
)
    requires
        f1.len() <= f0.len(),
        f1 == f0.subrange(0, f1.len() as int),
        f2.len() <= f1.len(),
        f2 == f1.subrange(0, f2.len() as int),
        owned(fork_pt).insert(tf) == taken(f0, f1).to_multiset(),
        owned(exec_pt) == taken(f1, f2).to_multiset(),
        r1.to_multiset() == owned(fork_pt),
        r2.to_multiset() == owned(exec_pt).insert(tf),
    ensures
        (r1 + r2).to_multiset() == taken(f0, f2).to_multiset(),
        f2.len() + r1.len() + r2.len() == f0.len(),
{
    broadcast use vstd::multiset::group_multiset_axioms;

    crate::sv39::lemma_taken_trans(f0, f1, f2);
    vstd::seq_lib::lemma_multiset_commutative(r1, r2);
    assert((r1 + r2).to_multiset() =~= taken(f0, f2).to_multiset());
    (r1 + r2).to_multiset_ensures();
    taken(f0, f2).to_multiset_ensures();
}

impl Proc {
    /// At `exec`: descriptors marked close-on-exec are closed, the others
    /// kept.
    pub fn close_on_exec(&mut self)
        ensures
            final(self).files@.len() == old(self).files@.len(),
            forall|i: int|
                0 <= i < old(self).files@.len() ==> #[trigger] final(self).files@[i] == (match old(self).files@[i] {
                    Some(e) => if e.cloexec {
                        None
                    } else {
                        Some(e)
                    },
                    None => None,
                }),
            final(self).pagetable == old(self).pagetable,
            final(self).pid == old(self).pid,
            final(self).sig_actions == old(self).sig_actions,
    {
        let n: usize = self.files.len();
        let mut i: usize = 0;
        while i < n
            invariant
                n == self.files@.len(),
                n == old(self).files@.len(),
                i <= n,
                forall|j: int|
                    0 <= j < i ==> #[trigger] self.files@[j] == (match old(self).files@[j] {
                        Some(e) => if e.cloexec {
                            None
                        } else {
                            Some(e)
                        },
                        None => None,
                    }),
                forall|j: int| i <= j < n ==> #[trigger] self.files@[j] == old(self).files@[j],
                self.pagetable == old(self).pagetable,
                self.pid == old(self).pid,
                self.sig_actions == old(self).sig_actions,
            decreases n - i,
        {
            let close: bool = match self.files[i] {
                Some(e) => e.cloexec,
                None => false,
            };
            if close {
                self.files.set(i, None);
            }
            i = i + 1;
        }
    }
}

/// A copy of `v`, element by element.
fn copy_of<T: Copy>(v: &Vec<T>) -> (r: Vec<T>)
    ensures
        r@ == v@,
{
    let mut r: Vec<T> = Vec::new();
    let mut i: usize = 0;
    while i < v.len()
        invariant
            i <= v@.len(),
            r@ == v@.subrange(0, i as int),
        decreases v@.len() - i,
    {
        r.push(v[i]);
        i = i + 1;
        proof {
            assert(r@ =~= v@.subrange(0, i as int));
        }
    }
    proof {
        assert(v@.subrange(0, v@.len() as int) =~= v@);
    }
    r
}

impl Proc {
    /// `fork`: the child process `child_pid` of `parent`. Its address
    /// space comes from `fork_address_space` (returned with the page
    /// copies to make); it is runnable, with the parent's size, fd table
    /// (every slot holds the same open file, so offsets are shared),
    /// credentials and umask, signal dispositions and blocked mask, and
    /// current directory; it has no pending signal, no saved signal
    /// frame, no task and no trap yet. The caller fills the child's trap
    /// frame from `fork_trapframe`. `None` when the address space cannot
    /// be built (then nothing is returned to copy).
    pub fn fork_from<A: FrameAllocator>(parent: &Proc, alloc: &mut A, child_pid: u64, trampoline_pa: u64) -> (r: Option<
        (Proc, Vec<(u64, u64)>),
    >)
        requires
            parent.pagetable.wf(),
            old(alloc).frames_wf(),
            frames_fit(old(alloc).frames()),
            old(alloc).frames().no_duplicates(),
            trampoline_pa % 4096 == 0,
            trampoline_pa + 4096 <= 0x100_0000_0000_0000,
        ensures
            final(alloc).frames_wf(),
            frames_fit(final(alloc).frames()),
            final(alloc).frames().no_duplicates(),
            match r {
                Some((c, copies)) => {
                    let n = code_pages(parent.size);
                    let pt = &c.pagetable;
                    &&& c.pid == child_pid
                    &&& c.state == ProcState::Runnable
                    &&& c.exit_code == 0
                    &&& c.size == parent.size
                    &&& c.task_id == 0
                    &&& c.pending_trap is None
                    &&& !c.killed
                    &&& c.files@ == parent.files@
                    &&& c.uid == parent.uid
                    &&& c.gid == parent.gid
                    &&& c.umask == parent.umask
                    &&& c.sig_actions@ == parent.sig_actions@
                    &&& c.sig_pending == 0
                    &&& c.sig_blocked == parent.sig_blocked
                    &&& c.sig_saved_frame is None
                    &&& c.sig_saved_blocked == 0
                    &&& c.cwd == parent.cwd
                    &&& pt.wf()
                    &&& alloc_ready(pt, final(alloc))
                    &&& pt.lookup(TRAMPOLINE) == Some((trampoline_pa, 5u32))
                    &&& pt.lookup(TRAPFRAME) == Some((c.trapframe_pa, 3u32))
                    &&& copies@.len() == n + stack_mapped_before(&parent.pagetable, STACK_PAGES as int)
                    &&& pages_copied(&parent.pagetable, pt, copies@, n)
                    &&& stack_copied(&parent.pagetable, pt, copies@, n, STACK_PAGES as int)
                    &&& forall|b: u64|
                        #[trigger] pt.lookup(b) is Some ==> b < n * 4096 || STACK_VA_BASE <= b < STACK_VA_TOP || on_page(
                            b,
                            TRAMPOLINE,
                        ) || on_page(b, TRAPFRAME)
                    &&& final(alloc).frames() == old(alloc).frames().subrange(0, final(alloc).frames().len() as int)
                    &&& user_image(&parent.pagetable, n) ==> owned(pt).insert(c.trapframe_pa) == taken(
                        old(alloc).frames(),
                        final(alloc).frames(),
                    ).to_multiset()
                },
                None => true,
            },
            (forall|k: int| 0 <= k < code_pages(parent.size) ==> #[trigger] parent.pagetable.lookup((k * 4096) as u64) is Some)
                && code_pages(parent.size) * 4096 <= STACK_VA_BASE && old(alloc).frames().len() >= 6 + 3 * STACK_PAGES
                + 3 * code_pages(parent.size) ==> r is Some,
    {
        let (pt, tf_pa, copies) = match fork_address_space(&parent.pagetable, alloc, parent.size, trampoline_pa) {
            None => return None,
            Some(x) => x,
        };
        let child = Proc {
            pid: child_pid,
            state: ProcState::Runnable,
            exit_code: 0,
            pagetable: pt,
            trapframe_pa: tf_pa,
            size: parent.size,
            task_id: 0,
            pending_trap: None,
            killed: false,
            files: copy_of(&parent.files),
            uid: parent.uid,
            gid: parent.gid,
            umask: parent.umask,
            sig_actions: copy_of(&parent.sig_actions),
            sig_pending: 0,
            sig_blocked: parent.sig_blocked,
            sig_saved_frame: None,
            sig_saved_blocked: 0,
            cwd: parent.cwd,
        };
        Some((child, copies))
    }
}

/// The trap frame a freshly exec'ed program starts from: all registers
/// zero but the entry point, the stack pointer and `argv` in the second
/// argument register (the first gets `argc` as the call's result).
pub fn exec_trapframe(entry: u64, sp: u64, argv_va: u64) -> (r: TrapFrame)
    ensures
        r == (TrapFrame {
            kernel_satp: 0, kernel_sp: 0, kernel_trap: 0, epc: entry, kernel_hartid: 0, ra: 0, sp, gp: 0, tp: 0,
            t0: 0, t1: 0, t2: 0, s0: 0, s1: 0, a0: 0, a1: argv_va, a2: 0, a3: 0, a4: 0, a5: 0, a6: 0, a7: 0, s2: 0,
            s3: 0, s4: 0, s5: 0, s6: 0, s7: 0, s8: 0, s9: 0, s10: 0, s11: 0, t3: 0, t4: 0, t5: 0, t6: 0,
        }),
{
    TrapFrame {
        kernel_satp: 0, kernel_sp: 0, kernel_trap: 0, epc: entry, kernel_hartid: 0, ra: 0, sp, gp: 0, tp: 0,
        t0: 0, t1: 0, t2: 0, s0: 0, s1: 0, a0: 0, a1: argv_va, a2: 0, a3: 0, a4: 0, a5: 0, a6: 0, a7: 0, s2: 0,
        s3: 0, s4: 0, s5: 0, s6: 0, s7: 0, s8: 0, s9: 0, s10: 0, s11: 0, t3: 0, t4: 0, t5: 0, t6: 0,
    }
}

/// A fresh fd table: console on 0, 1 and 2.
pub fn default_files(console: u64) -> (r: Vec<Option<FdEntry>>)
    ensures
        r@.len() == NOFILE,
        forall|i: int| 0 <= i < 3 ==> r@[i] == Some(FdEntry { file: console, cloexec: false, nonblock: false }),
        forall|i: int| 3 <= i < NOFILE ==> r@[i] is None,
{
    let mut v: Vec<Option<FdEntry>> = Vec::new();
    let mut i: usize = 0;
    while i < NOFILE
        invariant
            i <= NOFILE,
            v@.len() == i,
            forall|j: int| 0 <= j < i && j < 3 ==> v@[j] == Some(FdEntry { file: console, cloexec: false, nonblock: false }),
            forall|j: int| 3 <= j < i ==> v@[j] is None,
        decreases NOFILE - i,
    {
        if i < 3 {
            v.push(Some(FdEntry::new(console)));
        } else {
            v.push(None);
        }
        i = i + 1;
    }
    v
}

} // verus!
