//! Signal delivery on the way back to user mode, and `sigreturn`.
//!
//! A delivered signal saves the interrupted registers in the process and
//! rewrites the trap frame so that the return to user mode enters the
//! handler with the signal number as its argument and the restorer as
//! its return address; `sigreturn` puts the saved registers back.

use vstd::prelude::*;
use vstd::std_specs::bits::axiom_u32_trailing_zeros;

use crate::proc::Proc;
use crate::riscv::TrapFrame;
use crate::uapi::{SIG_DFL, SIG_IGN};

verus! {

/// What the return path did about pending signals.
#[derive(Clone, Copy, Debug, PartialEq, Eq, Structural)]
pub enum Delivery {
    /// A handler is already running: no nesting.
    Busy,
    /// No pending signal is unblocked.
    Nothing,
    /// The disposition went back to default or ignore: the signal is
    /// dropped.
    Dropped(i32),
    /// The handler has no restorer to return through: the signal stays
    /// pending.
    Refused(i32),
    /// The trap frame now enters the handler.
    Delivered(i32),
}

/// The trap frame that enters handler `handler` for signal `sig`,
/// returning to `restorer`.
pub open spec fn handler_frame(tf: TrapFrame, sig: int, handler: u64, restorer: u64) -> TrapFrame {
    TrapFrame { a0: sig as u64, epc: handler, ra: restorer, ..tf }
}

/// The signal the return path looks at: the lowest pending one that is
/// not blocked.
pub open spec fn next_signal(pending: u32, blocked: u32) -> int {
    (pending & !blocked).trailing_zeros() as int
}

/// Everything of a process but its signal bookkeeping is unchanged.
pub open spec fn same_but_signals(p0: Proc, p1: Proc) -> bool {
    &&& p1.pid == p0.pid && p1.state == p0.state && p1.killed == p0.killed
    &&& p1.files == p0.files && p1.pagetable == p0.pagetable && p1.size == p0.size
    &&& p1.sig_actions == p0.sig_actions && p1.sig_blocked == p0.sig_blocked
    &&& p1.sig_saved_blocked == p0.sig_saved_blocked
}

/// The outcome of the return path's signal check on process `p0` with
/// trap frame `tf0`, leaving `p1` and `tf1`.
pub open spec fn deliver_post(p0: Proc, tf0: TrapFrame, p1: Proc, tf1: TrapFrame, d: Delivery) -> bool {
    let runnable = p0.sig_pending & !p0.sig_blocked;
    let sig = next_signal(p0.sig_pending, p0.sig_blocked);
    let act = p0.sig_actions@[sig];
    &&& same_but_signals(p0, p1)
    &&& if p0.sig_saved_frame is Some {
        d == Delivery::Busy && p1 == p0 && tf1 == tf0
    } else if runnable == 0 {
        d == Delivery::Nothing && p1 == p0 && tf1 == tf0
    } else if act.handler == SIG_DFL || act.handler == SIG_IGN {
        &&& d == Delivery::Dropped(sig as i32)
        &&& p1.sig_pending == p0.sig_pending & !(1u32 << (sig as u32))
        &&& p1.sig_saved_frame == p0.sig_saved_frame
        &&& tf1 == tf0
    } else if act.restorer == 0 {
        d == Delivery::Refused(sig as i32) && p1 == p0 && tf1 == tf0
    } else {
        &&& d == Delivery::Delivered(sig as i32)
        &&& p1.sig_pending == p0.sig_pending & !(1u32 << (sig as u32))
        &&& p1.sig_saved_frame == Some(tf0)
        &&& tf1 == handler_frame(tf0, sig, act.handler, act.restorer)
    }
}

/// The outcome of `sigreturn` on process `p1` with trap frame `tf1`.
pub open spec fn sigreturn_post(p1: Proc, tf1: TrapFrame, p2: Proc, tf2: TrapFrame, r: i64) -> bool {
    match p1.sig_saved_frame {
        None => r == -1 && p2 == p1 && tf2 == tf1,
        Some(saved) => {
            &&& tf2 == saved
            &&& r == saved.a0 as i64
            &&& p2.sig_saved_frame is None
            &&& p2.sig_blocked == p1.sig_saved_blocked
            &&& p2.sig_pending == p1.sig_pending
            &&& p2.pid == p1.pid && p2.files == p1.files && p2.pagetable == p1.pagetable
            &&& p2.sig_actions == p1.sig_actions
        },
    }
}

/// Checks for a signal to run on the way back to user mode and, when
/// one has a handler and a restorer, sets the trap frame up to enter it.
pub fn maybe_deliver_signal(proc: &mut Proc, tf: &mut TrapFrame) -> (d: Delivery)
    requires
        old(proc).sig_actions@.len() == 32,
    ensures
        deliver_post(*old(proc), *old(tf), *final(proc), *final(tf), d),
{
    if proc.sig_saved_frame.is_some() {
        return Delivery::Busy;
    }
    let runnable: u32 = proc.sig_pending & !proc.sig_blocked;
    if runnable == 0 {
        return Delivery::Nothing;
    }
    proof {
        broadcast use axiom_u32_trailing_zeros;
        assert(runnable.trailing_zeros() < 32);
    }
    let sig: u32 = runnable.trailing_zeros();
    let act = proc.sig_actions[sig as usize];
    if act.handler == SIG_DFL || act.handler == SIG_IGN {
        proc.sig_pending = proc.sig_pending & !(1u32 << sig);
        return Delivery::Dropped(sig as i32);
    }
    if act.restorer == 0 {
        return Delivery::Refused(sig as i32);
    }
    proc.sig_pending = proc.sig_pending & !(1u32 << sig);
    proc.sig_saved_frame = Some(*tf);
    tf.a0 = sig as u64;
    tf.epc = act.handler;
    tf.ra = act.restorer;
    Delivery::Delivered(sig as i32)
}

/// `sigreturn`: puts back the registers saved when the handler was
/// entered and the blocked mask from before; returns the restored
/// first argument register, or -1 when no handler was running.
pub fn sys_sigreturn(proc: &mut Proc, tf: &mut TrapFrame) -> (r: i64)
    ensures
        sigreturn_post(*old(proc), *old(tf), *final(proc), *final(tf), r),
{
    match proc.sig_saved_frame {
        None => -1,
        Some(saved) => {
            proc.sig_saved_frame = None;
            *tf = saved;
            proc.sig_blocked = proc.sig_saved_blocked;
            tf.a0 as i64
        },
    }
}

/// A handler entered on the way back to user mode and left through
/// `sigreturn` gives back exactly the interrupted registers, and the
/// process is ready for the next signal.
pub proof fn law_sigreturn_restores(
    p0: Proc,
    tf0: TrapFrame,
    p1: Proc,
    tf1: TrapFrame,
    sig: i32,
    p2: Proc,
    tf2: TrapFrame,
    r: i64,
)
    requires
        deliver_post(p0, tf0, p1, tf1, Delivery::Delivered(sig)),
        sigreturn_post(p1, tf1, p2, tf2, r),
    ensures
        tf2 == tf0,
        r == tf0.a0 as i64,
        p2.sig_saved_frame is None,
        p2.pid == p0.pid && p2.files == p0.files && p2.pagetable == p0.pagetable,
{
}

} // verus!
