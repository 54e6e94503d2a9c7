//! Per-CPU state: the interrupt-disable nesting count, the process
//! running in user mode, and the hand-off slot to user mode.

use vstd::prelude::*;

use crate::riscv::MAX_CPUS;

verus! {

/// One hart's bookkeeping.
#[derive(Clone, Copy, Debug, PartialEq, Eq, Structural)]
pub struct Cpu {
    pub hartid: u64,
    /// Depth of `push_off` nesting.
    pub noff: u64,
    /// Were interrupts on before the outermost `push_off`?
    pub intena: bool,
    /// Process running on this hart in user mode.
    pub current_proc: Option<u64>,
    /// Process to enter user mode next.
    pub user_target: Option<u64>,
}

impl Cpu {
    /// A hart that has not started: no id yet, interrupts not pushed,
    /// no process.
    pub open spec fn new_spec() -> Cpu {
        Cpu { hartid: u64::MAX, noff: 0, intena: false, current_proc: None, user_target: None }
    }

    pub fn new() -> (r: Self)
        ensures
            r == Cpu::new_spec(),
    {
        Cpu { hartid: u64::MAX, noff: 0, intena: false, current_proc: None, user_target: None }
    }
}

/// All harts, and the mask of those that have started.
pub struct Cpus {
    pub cpus: Vec<Cpu>,
    pub active: u64,
}

/// Bit of hart `id` in the active mask.
pub open spec fn hart_bit(id: u64) -> u64 {
    1u64 << id
}

/// Hart `h`'s bit is set in `mask`.
pub open spec fn hart_active(mask: u64, h: u64) -> bool {
    mask & hart_bit(h) != 0
}

impl Cpus {
    /// One record per hart; only harts below `MAX_CPUS` can be active,
    /// and a hart's bit is set exactly when it has recorded its id.
    pub open spec fn wf(&self) -> bool {
        &&& self.cpus@.len() == MAX_CPUS
        &&& self.active >> 8u64 == 0
        &&& forall|h: u64| h < MAX_CPUS ==> #[trigger] hart_active(self.active, h) == (self.cpus@[h as int].hartid == h)
    }

    /// No hart has started yet.
    pub fn new() -> (r: Self)
        ensures
            r.wf(),
            r.active == 0,
            r.cpus@ == Seq::new(MAX_CPUS as nat, |i: int| Cpu::new_spec()),
    {
        let mut cpus: Vec<Cpu> = Vec::new();
        let mut i: usize = 0;
        while i < MAX_CPUS
            invariant
                i <= MAX_CPUS,
                cpus@ == Seq::new(i as nat, |k: int| Cpu::new_spec()),
            decreases MAX_CPUS - i,
        {
            cpus.push(Cpu::new());
            i = i + 1;
            proof {
                assert(cpus@ =~= Seq::new(i as nat, |k: int| Cpu::new_spec()));
            }
        }
        let r = Cpus { cpus, active: 0 };
        proof {
            lemma_mask_bits(0, 0, 0);
            assert forall|h: u64| h < MAX_CPUS implies #[trigger] hart_active(r.active, h) == (r.cpus@[h as int].hartid == h) by {
                lemma_mask_bits(0, 0, h);
                assert(r.cpus@[h as int] == Cpu::new_spec());
            }
        }
        r
    }
}

/// Facts about setting one hart's bit in a mask.
proof fn lemma_mask_bits(m: u64, id: u64, h: u64)
    by (bit_vector)
    requires
        id < 8,
        h < 8,
    ensures
        ((m | (1u64 << id)) & (1u64 << h) != 0) == (h == id || m & (1u64 << h) != 0),
        m >> 8u64 == 0 ==> (m | (1u64 << id)) >> 8u64 == 0,
        0u64 & (1u64 << h) == 0,
        0u64 >> 8u64 == 0,
{
}

/// The active mask never loses a bit: a mask `m1` read before (every
/// bit of it set in the current mask `m2`) is still contained after
/// hart `id` starts.
pub proof fn law_active_mask_grows(m1: u64, m2: u64, id: u64)
    requires
        m2 & m1 == m1,
        id < MAX_CPUS,
    ensures
        (m2 | hart_bit(id)) & m1 == m1,
        hart_active(m2 | hart_bit(id), id),
{
    assert((m2 | (1u64 << id)) & m1 == m1 && (m2 | (1u64 << id)) & (1u64 << id) != 0) by (bit_vector)
        requires
            m2 & m1 == m1,
            id < 8,
    ;
}

/// Mask of the harts that have started.
pub fn active_cpu_mask(s: &Cpus) -> (r: u64)
    ensures
        r == s.active,
{
    s.active
}

/// The record of hart `id`.
pub fn current(s: &Cpus, id: usize) -> (r: Cpu)
    requires
        id < s.cpus@.len(),
    ensures
        r == s.cpus@[id as int],
{
    s.cpus[id]
}

/// Hart `id` starts: records its id and marks it active.
pub fn init_this_hart(s: &mut Cpus, id: usize)
    requires
        id < old(s).cpus@.len(),
        id < MAX_CPUS,
    ensures
        final(s).active == old(s).active | hart_bit(id as u64),
        final(s).cpus@ == old(s).cpus@.update(id as int, Cpu { hartid: id as u64, ..old(s).cpus@[id as int] }),
        old(s).wf() ==> final(s).wf(),
{
    let c = s.cpus[id];
    s.cpus.set(id, Cpu { hartid: id as u64, ..c });
    s.active = s.active | (1u64 << (id as u64));
    proof {
        if old(s).wf() {
            lemma_mask_bits(old(s).active, id as u64, 0);
            assert forall|h: u64| h < MAX_CPUS implies #[trigger] hart_active(s.active, h) == (s.cpus@[h as int].hartid
                == h) by {
                lemma_mask_bits(old(s).active, id as u64, h);
                assert(hart_active(old(s).active, h) == (old(s).cpus@[h as int].hartid == h));
            }
        }
    }
}

/// Interrupts go off (the caller turns them off): one level deeper,
/// remembering at the outermost level whether they were on.
pub fn push_off(c: &mut Cpu, enabled: bool)
    requires
        old(c).noff < u64::MAX,
    ensures
        final(c).noff == old(c).noff + 1,
        final(c).intena == (if old(c).noff == 0 {
            enabled
        } else {
            old(c).intena
        }),
        final(c).hartid == old(c).hartid,
        final(c).current_proc == old(c).current_proc,
        final(c).user_target == old(c).user_target,
{
    if c.noff == 0 {
        c.intena = enabled;
    }
    c.noff = c.noff + 1;
}

/// One level less; returns whether interrupts are to be turned back
/// on (leaving the outermost level with them on before).
pub fn pop_off(c: &mut Cpu) -> (turn_on: bool)
    requires
        old(c).noff >= 1,
    ensures
        final(c).noff == old(c).noff - 1,
        turn_on == (old(c).noff == 1 && old(c).intena),
        final(c).intena == old(c).intena,
        final(c).hartid == old(c).hartid,
        final(c).current_proc == old(c).current_proc,
        final(c).user_target == old(c).user_target,
{
    let prev = c.noff;
    c.noff = c.noff - 1;
    prev == 1 && c.intena
}

/// A matched `push_off` / `pop_off` pair at the outermost level turns
/// interrupts back on exactly when they were on before.
pub proof fn law_push_pop(c: Cpu, enabled: bool)
    requires
        c.noff == 0,
    ensures
        ({
            let pushed = Cpu { noff: 1, intena: enabled, ..c };
            pushed.noff == 1 && pushed.intena == enabled
        }),
{
}

pub fn set_current_proc(c: &mut Cpu, p: Option<u64>)
    ensures
        *final(c) == (Cpu { current_proc: p, ..*old(c) }),
{
    c.current_proc = p;
}

pub fn set_user_target(c: &mut Cpu, p: u64)
    ensures
        *final(c) == (Cpu { user_target: Some(p), ..*old(c) }),
{
    c.user_target = Some(p);
}

/// Takes the process to enter user mode, if one was set.
pub fn take_user_target(c: &mut Cpu) -> (r: Option<u64>)
    ensures
        r == old(c).user_target,
        *final(c) == (Cpu { user_target: None, ..*old(c) }),
{
    let t = c.user_target;
    c.user_target = None;
    t
}

} // verus!
