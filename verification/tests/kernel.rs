use xv6_kernel::layout::{T_DEVICE, T_DIR, T_FILE};
use xv6_kernel::console_in::{pending, push, register_waker, try_pop, unget, wake, ConsIn, EOF_SENTINEL};
use xv6_kernel::cpu::{active_cpu_mask, current, init_this_hart, pop_off, push_off, set_current_proc, set_user_target, take_user_target, Cpu, Cpus};
use xv6_kernel::executor::{
    find_proc_by_pid, insert_task, make_tid, pick_home_cpu, run_step, spawn, spawn_kernel, spawn_kernel_on, tid_cpu,
    tid_slot, wake as exec_wake, Executor, PerCpuExec, RunStep, TaskInfo,
};
use xv6_kernel::file::{
    sock_end_close, socket_conn_pair, sock_lookup, File, sock_register, FdEntry, PipeInner, PopResult, PushResult,
    SockEnd, SockRegistry, PIPE_CAP,
};
use xv6_kernel::kalloc::FrameAllocImpl;
use xv6_kernel::proc::{default_files, spawn_proc_main, Proc, ProcState, NOFILE};
use xv6_kernel::riscv::{
    decode_and_handle, decode_user_trap, intr_get, kernel_trap_cause, userret_offset, uservec_offset, TrapCause,
    TrapFrame, SCAUSE_INTERRUPT,
};
use xv6_kernel::hal::{PtePerm, UserTrapCause};
use xv6_kernel::sv39::PageTable;
use xv6_kernel::syscall::{
    advance_offset, rename_overwrite, fire_alarm, sys_kill, getdents_precheck, sys_getdents_in, writable_prefix, alarm_remaining, chmod_permitted, open_inode_check, chown_fields, truncate_length_ok, alarm_update, bytes_equal, positional_precheck, write_start, clock_values, decode_syscall, deliver_signal, getdents_fill, is_dot_or_dotdot,
    kill_precheck, lseek_target, open_mode, rename_precheck, rename_target_ok, sys_dup2, sys_fcntl, sys_setgid,
    sys_setuid, sys_sigaction, sys_sigprocmask, sys_umask, wait_poll, OpenMode, SignalEffect, Syscall, WaitOutcome,
    SYS_KILL, SYS_SBRK, SYS_WRITE,
};
use xv6_kernel::time::{add_alarm, add_timer, alarm_current, drain_expired, drain_expired_alarms, AlarmQueue, TimerQueue};
use xv6_kernel::uapi::{
    check_access, sig_default_kills, stat_mode, SigAction, Stat, F_DUPFD, F_GETFD, F_GETFL, F_SETFD, F_SETFL,
    O_APPEND, O_CREATE, O_NONBLOCK, O_RDONLY, O_RDWR, O_TRUNC, O_WRONLY, SEEK_CUR, SEEK_END, SEEK_SET, SIGKILL, SIGSTOP, SIGTERM,
    SIGUSR1, SIG_BLOCK, SIG_IGN, SIG_SETMASK, SIG_UNBLOCK, SIGALRM,
};
use xv6_kernel::wait::{WakerCell, WakerList};

fn test_proc(uid: u32) -> Proc {
    let mut a = FrameAllocImpl::new();
    a.add_range(0x8000_0000, 0x8000_4000);
    let pt = PageTable::new(&mut a).unwrap();
    Proc {
        pid: 7,
        state: ProcState::Runnable,
        exit_code: 0,
        pagetable: pt,
        trapframe_pa: 0,
        size: 0,
        task_id: 0,
        pending_trap: None,
        killed: false,
        files: default_files(1),
        uid,
        gid: 100,
        umask: 0o22,
        sig_actions: vec![SigAction::default_action(); 32],
        sig_pending: 0,
        sig_blocked: 0,
        sig_saved_frame: None,
        sig_saved_blocked: 0,
        cwd: None,
    }
}

#[test]
fn kernel_trap_classification() {
    assert_eq!(kernel_trap_cause(SCAUSE_INTERRUPT | 5), TrapCause::Timer);
    assert_eq!(kernel_trap_cause(SCAUSE_INTERRUPT | 9), TrapCause::External);
    assert_eq!(kernel_trap_cause(SCAUSE_INTERRUPT | 1), TrapCause::Software);
    assert_eq!(kernel_trap_cause(SCAUSE_INTERRUPT | 3), TrapCause::Unknown(3));
    assert_eq!(kernel_trap_cause(13), TrapCause::Exception(13));
    assert!(decode_and_handle(SCAUSE_INTERRUPT | 5));
    assert!(!decode_and_handle(SCAUSE_INTERRUPT | 9));
    assert!(intr_get(2));
    assert!(!intr_get(0x100));
    assert_eq!(uservec_offset(0x8000_1000, 0x8000_1000), 0);
    assert_eq!(userret_offset(0x8000_1090, 0x8000_1000), 0x90);
}

fn zero_tf() -> TrapFrame {
    TrapFrame {
        kernel_satp: 0, kernel_sp: 0, kernel_trap: 0, epc: 0, kernel_hartid: 0, ra: 0, sp: 0x5000, gp: 0, tp: 0,
        t0: 0, t1: 0, t2: 0, s0: 0, s1: 0, a0: 1, a1: 2, a2: 3, a3: 4, a4: 5, a5: 6, a6: 7, a7: 16, s2: 0, s3: 0,
        s4: 0, s5: 0, s6: 0, s7: 0, s8: 0, s9: 0, s10: 0, s11: 0, t3: 0, t4: 0, t5: 0, t6: 0,
    }
}

#[test]
fn user_trap_classification() {
    let mut tf = zero_tf();
    assert_eq!(decode_user_trap(&mut tf, 8, 0x100, 0), UserTrapCause::Syscall);
    assert_eq!(tf.epc, 0x104);
    assert_eq!(tf.a0, 1);
    assert_eq!(decode_user_trap(&mut tf, 13, 0x200, 0xdead), UserTrapCause::PageFault { va: 0xdead, write: false });
    assert_eq!(tf.epc, 0x200);
    assert_eq!(decode_user_trap(&mut tf, 15, 0x200, 0xbeef), UserTrapCause::PageFault { va: 0xbeef, write: true });
    assert_eq!(decode_user_trap(&mut tf, SCAUSE_INTERRUPT | 5, 0x300, 0), UserTrapCause::Timer);
    assert_eq!(decode_user_trap(&mut tf, SCAUSE_INTERRUPT | 9, 0x300, 0), UserTrapCause::Devintr);
    assert_eq!(decode_user_trap(&mut tf, 2, 0x300, 7), UserTrapCause::Unknown { code: 2, va: 7 });
}

#[test]
fn syscall_decoding() {
    assert_eq!(decode_syscall(SYS_WRITE, 1, 0x1000, 12, 0), Syscall::Write { fd: 1, buf_va: 0x1000, len: 12 });
    assert_eq!(decode_syscall(SYS_KILL, 5, 9, 0, 0), Syscall::Kill { pid: 5, sig: 9 });
    assert_eq!(decode_syscall(SYS_SBRK, 0xffff_fff0, 1, 0, 0), Syscall::Sbrk { n: -16, lazy: 1 });
    assert_eq!(decode_syscall(26, 0x10, 0o17777, 0, 0), Syscall::Chmod { path_va: 0x10, mode: 0o7777 });
    assert_eq!(decode_syscall(34, 0o1777, 0, 0, 0), Syscall::Umask { mask: 0o777 });
    assert_eq!(decode_syscall(32, 0, 0, 0, 0), Syscall::Getuid);
    assert_eq!(decode_syscall(999, 0, 0, 0, 0), Syscall::Unknown);
}

#[test]
fn dup2_and_fcntl() {
    let mut p = test_proc(0);
    assert_eq!(sys_dup2(&mut p, 1, 5), 5);
    assert_eq!(p.files[5], Some(FdEntry { file: 1, cloexec: false, nonblock: false }));
    assert_eq!(sys_dup2(&mut p, 1, 1), 1);
    assert_eq!(sys_dup2(&mut p, 9, 4), -1);
    assert_eq!(sys_dup2(&mut p, 1, NOFILE as i32), -1);
    assert_eq!(sys_fcntl(&mut p, 1, F_SETFD, 1, false), 0);
    assert_eq!(sys_fcntl(&mut p, 1, F_GETFD, 0, false), 1);
    assert_eq!(sys_fcntl(&mut p, 1, F_SETFL, O_NONBLOCK as i64, false), 0);
    assert_eq!(sys_fcntl(&mut p, 1, F_GETFL, 0, true), (O_APPEND | O_NONBLOCK) as i64);
    assert_eq!(sys_fcntl(&mut p, 0, F_DUPFD, 4, false), 4);
    assert_eq!(sys_fcntl(&mut p, 0, F_DUPFD, 4, false), 6);
    assert_eq!(sys_fcntl(&mut p, 12, F_GETFD, 0, false), -1);
    assert_eq!(sys_fcntl(&mut p, 0, 77, 0, false), -1);
}

#[test]
fn fd_table_allocation() {
    let mut p = test_proc(0);
    assert_eq!(p.alloc_fd(9), Some(3));
    assert_eq!(p.get_file(3), Some(9));
    assert_eq!(p.close_fd(3), 0);
    assert_eq!(p.close_fd(3), -1);
    assert_eq!(p.get_file(-1), None);
    for i in 3..NOFILE {
        assert_eq!(p.alloc_fd(20 + i as u64), Some(i as i32));
    }
    assert_eq!(p.alloc_fd(99), None);
}

#[test]
fn signals() {
    let mut p = test_proc(0);
    assert_eq!(sys_sigaction(&mut p, SIGKILL, 0x4000, 0, 0), -1);
    assert_eq!(sys_sigaction(&mut p, 0, 0x4000, 0, 0), -1);
    assert_eq!(sys_sigaction(&mut p, SIGUSR1, 0x4000, 0x5000, 3), 0);
    assert_eq!(sys_sigaction(&mut p, SIGUSR1, SIG_IGN, 0, 0), 0x4000);
    assert_eq!(deliver_signal(&mut p, SIGUSR1), SignalEffect::Unchanged);
    assert_eq!(sys_sigaction(&mut p, SIGUSR1, 0x4000, 0x5000, 3), SIG_IGN as i64);
    assert_eq!(deliver_signal(&mut p, SIGUSR1), SignalEffect::Queued);
    assert_eq!(p.sig_pending, 1 << SIGUSR1);
    assert!(!p.killed);
    assert_eq!(deliver_signal(&mut p, SIGTERM), SignalEffect::Killed);
    assert!(p.killed);
    let mut q = test_proc(0);
    assert_eq!(deliver_signal(&mut q, SIGSTOP), SignalEffect::Unchanged);
    assert_eq!(deliver_signal(&mut q, 17), SignalEffect::Unchanged);
    assert!(sig_default_kills(SIGTERM));
    assert!(!sig_default_kills(17));
}

#[test]
fn signal_masks() {
    let mut p = test_proc(0);
    let kill_bit = 1u32 << SIGKILL;
    assert_eq!(sys_sigprocmask(&mut p, SIG_BLOCK, 0b110 | kill_bit), (0, 0));
    assert_eq!(p.sig_blocked, 0b110);
    assert_eq!(sys_sigprocmask(&mut p, SIG_UNBLOCK, 0b010), (0, 0b110));
    assert_eq!(p.sig_blocked, 0b100);
    assert_eq!(sys_sigprocmask(&mut p, SIG_SETMASK, 0b1000), (0, 0b100));
    assert_eq!(p.sig_blocked, 0b1000);
    assert_eq!(sys_sigprocmask(&mut p, 9, 0), (-1, 0b1000));
    assert_eq!(p.sig_blocked, 0b1000);
}

#[test]
fn kill_argument_checks() {
    assert_eq!(kill_precheck(0, 9, true), Some(-1));
    assert_eq!(kill_precheck(3, 32, true), Some(-1));
    assert_eq!(kill_precheck(3, 9, false), Some(-1));
    assert_eq!(kill_precheck(3, 0, true), Some(0));
    assert_eq!(kill_precheck(3, 9, true), None);
    assert_eq!(kill_precheck(3, 5, true), Some(-1));
    assert_eq!(kill_precheck(3, 31, true), Some(-1));
    assert_eq!(kill_precheck(3, 17, true), None);
}

#[test]
fn credentials() {
    let mut root = test_proc(0);
    assert_eq!(sys_setuid(&mut root, 500), 0);
    assert_eq!(root.uid, 500);
    assert_eq!(sys_setgid(&mut root, 7), -1);
    assert_eq!(root.gid, 100);
    let mut r2 = test_proc(0);
    assert_eq!(sys_setgid(&mut r2, 7), 0);
    assert_eq!(r2.gid, 7);
    assert_eq!(sys_umask(&mut r2, 0o77), 0o22);
    assert_eq!(r2.umask, 0o77);
}

#[test]
fn permission_checks() {
    assert!(check_access(0, 0, 5, 5, 0, true, true));
    // Owner rw-, group r--, other ---.
    assert!(check_access(5, 9, 5, 6, 0o640, true, true));
    assert!(check_access(7, 6, 5, 6, 0o640, true, false));
    assert!(!check_access(7, 6, 5, 6, 0o640, false, true));
    assert!(!check_access(7, 8, 5, 6, 0o640, true, false));
    // The owner class decides even when "other" would allow more.
    assert!(!check_access(5, 6, 5, 6, 0o047, true, false));
}

#[test]
fn stat_record() {
    assert_eq!(stat_mode(1, 0o755), 0o040755);
    assert_eq!(stat_mode(2, 0o17644), 0o107644);
    assert_eq!(stat_mode(3, 0o600), 0o020600);
    let st = Stat::of_inode(1, 12, 2, 1, 300, 0o644, 5, 6, (10, 11, 12));
    assert_eq!(st.mode, 0o100644);
    let b = st.to_bytes();
    assert_eq!(b.len(), 48);
    assert_eq!(&b[0..4], &[1, 0, 0, 0]);
    assert_eq!(&b[4..8], &[12, 0, 0, 0]);
    assert_eq!(&b[8..12], &[2, 0, 1, 0]);
    assert_eq!(&b[16..24], &300u64.to_le_bytes());
    assert_eq!(&b[24..28], &0o100644u32.to_le_bytes());
    assert_eq!(&b[28..32], &[5, 0, 6, 0]);
    assert_eq!(&b[32..44], &[10, 0, 0, 0, 11, 0, 0, 0, 12, 0, 0, 0]);
    assert_eq!(&b[44..48], &[0, 0, 0, 0]);
}

#[test]
fn lseek_offsets() {
    assert_eq!(lseek_target(SEEK_SET, 10, 100, 5), 5);
    assert_eq!(lseek_target(SEEK_CUR, 10, 100, -4), 6);
    assert_eq!(lseek_target(SEEK_END, 10, 100, 20), 120);
    assert_eq!(lseek_target(SEEK_CUR, 10, 100, -11), -1);
    assert_eq!(lseek_target(SEEK_SET, 0, 0, 1 << 32), -1);
    assert_eq!(lseek_target(7, 10, 100, 0), -1);
}

#[test]
fn open_flags() {
    assert_eq!(
        open_mode(O_RDWR | O_CREATE),
        Some(OpenMode {
            readable: true,
            writable: true,
            append: false,
            cloexec: false,
            nonblock: false,
            create: true,
            trunc: false
        })
    );
    let w = open_mode(O_WRONLY | O_APPEND).unwrap();
    assert!(!w.readable && w.writable && w.append);
    let r = open_mode(0).unwrap();
    assert!(r.readable && !r.writable);
    assert_eq!(open_mode(0x10), None);
}

#[test]
fn waitpid_polls() {
    let kids = vec![(4, false), (5, true), (6, true)];
    assert_eq!(wait_poll(&kids, None, false, false), WaitOutcome::Reaped(1));
    assert_eq!(wait_poll(&kids, Some(6), false, false), WaitOutcome::Reaped(2));
    assert_eq!(wait_poll(&kids, Some(4), true, false), WaitOutcome::WouldBlock);
    assert_eq!(wait_poll(&kids, Some(4), false, false), WaitOutcome::Pending);
    assert_eq!(wait_poll(&kids, Some(9), false, false), WaitOutcome::NoChildren);
    assert_eq!(wait_poll(&vec![], None, false, false), WaitOutcome::NoChildren);
    assert_eq!(wait_poll(&kids, None, false, true), WaitOutcome::Killed);
}

#[test]
fn clocks_and_alarms() {
    assert_eq!(clock_values(1, 25_000_000), Some((2, 500_000_000)));
    assert_eq!(clock_values(0, 3), Some((0, 300)));
    assert_eq!(clock_values(2, 3), None);
    assert_eq!(alarm_remaining(5_500_000, 1_000_000), 4);
    assert_eq!(alarm_remaining(1_000_000, 5_000_000), 0);
}

#[test]
fn rename_checks() {
    assert_eq!(rename_precheck(b".", b"x", false), Some(-1));
    assert_eq!(rename_precheck(b"a", b"..", true), Some(-1));
    assert_eq!(rename_precheck(b"a", b"a", true), Some(0));
    assert_eq!(rename_precheck(b"a", b"a", false), None);
    assert_eq!(rename_precheck(b"a", b"b", true), None);
    assert!(is_dot_or_dotdot(b".."));
    assert!(!is_dot_or_dotdot(b"..."));
    assert!(bytes_equal(b"abc", b"abc"));
    assert!(!bytes_equal(b"abc", b"abd"));
    assert!(rename_target_ok(None));
    assert!(rename_target_ok(Some(2)));
    assert!(!rename_target_ok(Some(1)));
}

fn dirent(inum: u16, name: &[u8]) -> Vec<u8> {
    let mut v = vec![0u8; 16];
    v[0..2].copy_from_slice(&inum.to_le_bytes());
    v[2..2 + name.len()].copy_from_slice(name);
    v
}

#[test]
fn getdents_records() {
    let mut dir = Vec::new();
    dir.extend(dirent(1, b"."));
    dir.extend(dirent(0, b"old"));
    dir.extend(dirent(9, b"file"));
    assert_eq!(getdents_fill(&dir, 0, 31), None);
    let (out, off) = getdents_fill(&dir, 0, 100).unwrap();
    assert_eq!(out.len(), 64);
    assert_eq!(off, 48);
    assert_eq!(&out[0..8], &[1, 0, 0, 0, 0, 0, 0, 0]);
    assert_eq!(&out[8..12], &[32, 0, 1, 0]);
    assert_eq!(out[12], b'.');
    assert_eq!(&out[32..34], &[9, 0]);
    assert_eq!(&out[44..48], b"file");
    let (out, off) = getdents_fill(&dir, 0, 40).unwrap();
    assert_eq!(out.len(), 32);
    assert_eq!(off, 16);
    let (out, off) = getdents_fill(&dir, 48, 100).unwrap();
    assert_eq!(out.len(), 0);
    assert_eq!(off, 48);
}

#[test]
fn pipe_is_fifo() {
    let mut p = PipeInner::new();
    assert_eq!(p.cap(), PIPE_CAP);
    assert_eq!(p.try_pop(), PopResult::Empty);
    assert_eq!(p.try_push(1), PushResult::Pushed);
    assert_eq!(p.try_push(2), PushResult::Pushed);
    assert_eq!(p.try_pop(), PopResult::Byte(1));
    assert_eq!(p.try_pop(), PopResult::Byte(2));
    p.writers = 0;
    assert_eq!(p.try_pop(), PopResult::Eof);
    for i in 0..PIPE_CAP {
        assert_eq!(p.try_push(i as u8), PushResult::Pushed);
    }
    assert_eq!(p.try_push(0), PushResult::Full);
    p.readers = 0;
    assert_eq!(p.try_push(0), PushResult::Broken);
}

#[test]
fn sockets() {
    let mut pipes = vec![PipeInner::new(), PipeInner::new()];
    let (a, b) = socket_conn_pair(&mut pipes);
    assert_eq!(a, SockEnd { rx: 3, tx: 2 });
    assert_eq!(b.rx, a.tx);
    assert_eq!(b.tx, a.rx);
    assert_eq!(pipes.len(), 4);
    assert!(pipes[2].buf.is_empty() && pipes[3].buf.is_empty());
    // Closing one end: the peer sees end of file and a broken pipe.
    let (lo, hi) = pipes.split_at_mut(3);
    sock_end_close(&mut hi[0], &mut lo[2]);
    assert_eq!(pipes[b.rx as usize].writers, 0);
    assert_eq!(pipes[b.tx as usize].readers, 0);
    let mut reg = SockRegistry { entries: vec![] };
    sock_register(&mut reg, 5, 100);
    sock_register(&mut reg, 6, 101);
    sock_register(&mut reg, 5, 102);
    assert_eq!(sock_lookup(&mut reg, 5, &vec![100, 101, 102]), Some(100));
    assert_eq!(sock_lookup(&mut reg, 5, &vec![101, 102]), Some(102));
    assert_eq!(reg.entries, vec![(6, 101), (5, 102)]);
    assert_eq!(sock_lookup(&mut reg, 7, &vec![101, 102]), None);
}

#[test]
fn waker_registration() {
    let mut c = WakerCell::new();
    c.register(3);
    c.register(4);
    assert_eq!(c.wake(), Some(4));
    assert_eq!(c.wake(), None);
    let mut l = WakerList::new();
    l.register(1);
    l.register(2);
    l.register(1);
    assert_eq!(l.list, vec![1, 2]);
    assert_eq!(l.wake_all(), vec![1, 2]);
    assert!(l.list.is_empty());
}

#[test]
fn console_line_discipline() {
    let mut c = ConsIn::new();
    assert_eq!(push(&mut c, b'h'), (vec![b'h'], false));
    assert_eq!(push(&mut c, b'x'), (vec![b'x'], false));
    assert_eq!(push(&mut c, 0x7f), (vec![8, 32, 8], false));
    assert_eq!(push(&mut c, b'i'), (vec![b'i'], false));
    assert_eq!(pending(&c), 0);
    assert_eq!(push(&mut c, b'\r'), (vec![b'\n'], true));
    assert_eq!(pending(&c), 3);
    assert_eq!(try_pop(&mut c), Some(b'h'));
    unget(&mut c, b'h');
    assert_eq!(c.cooked, b"hi\n".to_vec());
    push(&mut c, b'a');
    push(&mut c, b'b');
    let (echo, woke) = push(&mut c, 0x15);
    assert_eq!(echo.len(), 6);
    assert!(!woke);
    assert!(c.edit.is_empty());
    assert_eq!(push(&mut c, EOF_SENTINEL), (vec![], true));
    assert_eq!(c.cooked, b"hi\n\x04".to_vec());
    assert_eq!(push(&mut c, 0x01), (vec![], false));
    register_waker(&mut c, 8);
    register_waker(&mut c, 8);
    assert_eq!(wake(&mut c), vec![8]);
}

#[test]
fn console_buffer_full() {
    let mut c = ConsIn::new();
    for _ in 0..256 {
        push(&mut c, b'a');
    }
    assert_eq!(c.edit.len(), 256);
    assert_eq!(push(&mut c, b'a'), (vec![], false));
    assert_eq!(push(&mut c, b'\n'), (vec![], false));
    assert_eq!(pending(&c), 0);
}

#[test]
fn timer_queue_order() {
    let mut q = TimerQueue::new();
    add_timer(&mut q, 30, 1);
    add_timer(&mut q, 10, 2);
    add_timer(&mut q, 20, 3);
    add_timer(&mut q, 10, 4);
    assert_eq!(q.entries, vec![(10, 2), (10, 4), (20, 3), (30, 1)]);
    assert_eq!(drain_expired(&mut q, 20), vec![(10, 2), (10, 4), (20, 3)]);
    assert_eq!(q.entries, vec![(30, 1)]);
    assert_eq!(drain_expired(&mut q, 5), vec![]);
    let mut a = AlarmQueue::new();
    add_alarm(&mut a, 50, 7, 1);
    add_alarm(&mut a, 40, 8, 2);
    assert_eq!(drain_expired_alarms(&mut a, 45), vec![(40, (8, 2))]);
    assert!(alarm_current(3, 3));
    assert!(!alarm_current(2, 3));
}

#[test]
fn interrupt_nesting() {
    let mut c = Cpu::new();
    push_off(&mut c, true);
    push_off(&mut c, false);
    assert_eq!(c.noff, 2);
    assert!(!pop_off(&mut c));
    assert!(pop_off(&mut c));
    assert_eq!(c.noff, 0);
    push_off(&mut c, false);
    assert!(!pop_off(&mut c));
    set_current_proc(&mut c, Some(4));
    assert_eq!(c.current_proc, Some(4));
    set_user_target(&mut c, 9);
    assert_eq!(take_user_target(&mut c), Some(9));
    assert_eq!(take_user_target(&mut c), None);
}

#[test]
fn hart_bookkeeping() {
    let mut s = Cpus { cpus: vec![Cpu::new(); 8], active: 0 };
    init_this_hart(&mut s, 2);
    init_this_hart(&mut s, 0);
    assert_eq!(active_cpu_mask(&s), 0b101);
    assert_eq!(current(&s, 2).hartid, 2);
    assert_eq!(current(&s, 1).hartid, u64::MAX);
}

#[test]
fn active_mask_only_gains_bits() {
    let mut s = Cpus::new();
    assert_eq!(active_cpu_mask(&s), 0);
    assert_eq!(s.cpus.len(), 8);
    init_this_hart(&mut s, 5);
    let m1 = active_cpu_mask(&s);
    init_this_hart(&mut s, 1);
    init_this_hart(&mut s, 5);
    let m2 = active_cpu_mask(&s);
    assert_eq!(m2 & m1, m1);
    assert_eq!(m2, 0b10_0010);
    assert_eq!(m2 >> 8, 0);
}

fn executor() -> Executor {
    let mut execs = Vec::new();
    for _ in 0..8 {
        execs.push(PerCpuExec { tasks: vec![], ready: vec![], next_slot: 0 });
    }
    Executor { execs }
}

#[test]
fn task_ids_and_placement() {
    let t = make_tid(3, 17);
    assert_eq!(t, (3 << 24) | 17);
    assert_eq!(tid_cpu(t), 3);
    assert_eq!(tid_slot(t), 17);
    assert_eq!(pick_home_cpu(0, &[5; 8]), 0);
    assert_eq!(pick_home_cpu(0b1110, &[0, 4, 2, 2, 0, 0, 0, 0]), 2);
    let mut ex = executor();
    let a = spawn(&mut ex, 0b10, 42);
    assert_eq!(a, 1 << 24);
    let b = spawn_kernel_on(&mut ex, 1);
    assert_eq!(b, (1 << 24) | 1);
    assert_eq!(ex.execs[1].ready, vec![a, b]);
    assert_eq!(find_proc_by_pid(&ex, 42), Some((1, 0)));
    assert_eq!(find_proc_by_pid(&ex, 43), None);
    assert_eq!(ex.execs[1].tasks[1], Some(TaskInfo { pid: None }));
    assert_eq!(run_step(&ex, 1, a), RunStep::Poll(0));
    assert_eq!(run_step(&ex, 0, a), RunStep::Forward(a));
    assert_eq!(run_step(&ex, 1, (1 << 24) | 5), RunStep::Skip);
    exec_wake(&mut ex, a);
    assert_eq!(ex.execs[1].ready, vec![a, b, a]);
    let c = insert_task(&mut ex, 4, Some(9));
    assert_eq!(tid_cpu(c), 4);
    let k = spawn_kernel(&mut ex, 0b1);
    assert_eq!(tid_cpu(k), 0);
}

#[test]
fn pipe_nonblocking_io() {
    let mut p = PipeInner::new();
    assert_eq!(p.read_nonblock(4, 4), (-1, vec![]));
    assert_eq!(p.write_nonblock(b"hello", 5, false), 5);
    assert_eq!(p.read_nonblock(3, 8), (3, b"hel".to_vec()));
    assert_eq!(p.read_nonblock(8, 8), (2, b"lo".to_vec()));
    assert_eq!(p.read_nonblock(0, 8), (0, vec![]));
    assert_eq!(p.write_nonblock(b"abc", 3, true), -1);
    assert_eq!(p.write_nonblock(b"ab", 5, false), -1);
    assert_eq!(p.buf, b"ab".to_vec());
    assert_eq!(p.read_nonblock(2, 1), (-1, b"a".to_vec()));
    assert!(p.buf.is_empty());
    let big = vec![7u8; PIPE_CAP + 10];
    assert_eq!(p.write_nonblock(&big, big.len(), false), PIPE_CAP as i64);
    assert_eq!(p.write_nonblock(&big, 1, false), -1);
    p.writers = 0;
    let mut q = PipeInner::new();
    q.writers = 0;
    assert_eq!(q.read_nonblock(4, 4), (0, vec![]));
}

#[test]
fn console_nonblocking_read() {
    let mut c = ConsIn::new();
    assert_eq!(xv6_kernel::console_in::read_nonblock(&mut c, 10, 10), (-1, vec![]));
    for &b in b"ab\ncd\n" {
        push(&mut c, b);
    }
    assert_eq!(xv6_kernel::console_in::read_nonblock(&mut c, 10, 10), (3, b"ab\n".to_vec()));
    assert_eq!(xv6_kernel::console_in::read_nonblock(&mut c, 1, 10), (1, b"c".to_vec()));
    assert_eq!(xv6_kernel::console_in::read_nonblock(&mut c, 10, 0), (-1, vec![]));
    assert_eq!(c.cooked, b"\n".to_vec());
}

#[test]
fn alarm_rearm() {
    assert_eq!(alarm_update(0, 0, 5_000_000, 3), (0, 1, 8_000_000));
    assert_eq!(alarm_update(8_000_000, 1, 6_000_000, 0), (2, 2, 0));
    assert_eq!(alarm_update(1, u32::MAX, 6_000_000, 1), (0, 0, 7_000_000));
}

#[test]
fn exit_makes_zombie() {
    let mut p = test_proc(0);
    let mut a = FrameAllocImpl::new();
    a.add_range(0x8100_0000, 0x8100_2000);
    let empty = PageTable::new(&mut a).unwrap();
    let root = p.pagetable.root_pa();
    let old = p.exit(3, empty);
    assert_eq!(old.root_pa(), root);
    assert!(p.files.is_empty());
    assert_eq!(p.exit_code, 3);
    assert!(p.is_zombie());
}

#[test]
fn closing_pipe_ends() {
    let mut p = PipeInner::new();
    assert_eq!(p.try_push(9), PushResult::Pushed);
    p.close_writer();
    assert_eq!(p.writers, 0);
    assert_eq!(p.try_pop(), PopResult::Byte(9));
    assert_eq!(p.try_pop(), PopResult::Eof);
    p.close_reader();
    assert_eq!(p.readers, 0);
    let mut ab = PipeInner::new();
    let mut ba = PipeInner::new();
    sock_end_close(&mut ba, &mut ab);
    assert_eq!((ba.readers, ba.writers), (0, 1));
    assert_eq!((ab.readers, ab.writers), (1, 0));
}

#[test]
fn positional_io_checks() {
    let ro = File::Inode { inum: 3, off: 0, readable: true, writable: false, append: false };
    assert_eq!(positional_precheck(0, -5, None, false), Some(0));
    assert_eq!(positional_precheck(4, -1, Some(ro), false), Some(-1));
    assert_eq!(positional_precheck(4, 1 << 32, Some(ro), false), Some(-1));
    assert_eq!(positional_precheck(4, 10, None, false), Some(-1));
    assert_eq!(positional_precheck(4, 10, Some(File::Console), false), Some(-1));
    assert_eq!(positional_precheck(4, 10, Some(ro), false), None);
    assert_eq!(positional_precheck(4, 10, Some(ro), true), Some(-1));
    assert_eq!(write_start(true, 500, 20), 500);
    assert_eq!(write_start(false, 500, 20), 20);
    assert_eq!(advance_offset(20, 5), 25);
}

#[test]
fn spawned_process_records_its_task() {
    let mut ex = executor();
    ex.execs[2].ready = vec![7, 8];
    let mut a = FrameAllocImpl::new();
    a.add_range(0x8100_0000, 0x8100_0000 + 4 * 4096);
    let mut p = Proc {
        pid: 5,
        state: ProcState::Runnable,
        exit_code: 0,
        pagetable: PageTable::new(&mut a).unwrap(),
        trapframe_pa: 0,
        size: 0,
        task_id: 0,
        pending_trap: None,
        killed: false,
        files: default_files(1),
        uid: 0,
        gid: 0,
        umask: 0,
        sig_actions: vec![SigAction::default_action(); 32],
        sig_pending: 0,
        sig_blocked: 0,
        sig_saved_frame: None,
        sig_saved_blocked: 0,
        cwd: None,
    };
    // Harts 2 and 3 are up; hart 3's queue is the shorter.
    let tid = spawn_proc_main(&mut ex, 0b1100, &mut p);
    assert_eq!(tid, 3 << 24);
    assert_eq!(p.task_id, tid);
    assert_eq!(ex.execs[3].tasks[0], Some(TaskInfo { pid: Some(5) }));
    assert_eq!(ex.execs[3].ready, vec![tid]);
}

#[test]
fn ownership_and_truncate_decisions() {
    assert!(chmod_permitted(0, 7));
    assert!(chmod_permitted(7, 7));
    assert!(!chmod_permitted(8, 7));
    assert_eq!(chown_fields(5, 1, 2, 3, 4), None);
    assert_eq!(chown_fields(0, 1, 2, 3, 4), Some((3, 4)));
    assert_eq!(chown_fields(0, 1, 2, u16::MAX, 4), Some((1, 4)));
    assert_eq!(chown_fields(0, 1, 2, 3, u16::MAX), Some((3, 2)));
    assert!(truncate_length_ok(0));
    assert!(truncate_length_ok(u32::MAX as i64));
    assert!(!truncate_length_ok(-1));
    assert!(!truncate_length_ok(u32::MAX as i64 + 1));
}

#[test]
fn open_checks_on_the_inode() {
    let rd = open_mode(O_RDONLY).unwrap();
    let rw_trunc = open_mode(O_RDWR | O_TRUNC).unwrap();
    let create = open_mode(O_CREATE | O_RDWR | O_TRUNC).unwrap();
    // A free inode cannot be opened.
    assert_eq!(open_inode_check(rd, 0, 0, 0, 0, 0, 0o644), None);
    // A directory opens for reading only.
    assert_eq!(open_inode_check(rd, T_DIR, 7, 6, 5, 6, 0o755), Some(false));
    assert_eq!(open_inode_check(rw_trunc, T_DIR, 0, 0, 0, 0, 0o755), None);
    // Access follows the mode bits unless the caller just created it.
    assert_eq!(open_inode_check(rw_trunc, T_FILE, 7, 6, 5, 6, 0o640), None);
    assert_eq!(open_inode_check(rw_trunc, T_FILE, 5, 6, 5, 6, 0o640), Some(true));
    assert_eq!(open_inode_check(create, T_FILE, 7, 6, 5, 6, 0o400), Some(true));
    // Only regular files are truncated.
    assert_eq!(open_inode_check(rw_trunc, T_DEVICE, 0, 0, 0, 0, 0o666), Some(false));
}

#[test]
fn getdents_checks_before_listing() {
    let dir = File::Inode { inum: 1, off: 48, readable: true, writable: false, append: false };
    let wo = File::Inode { inum: 1, off: 0, readable: false, writable: true, append: false };
    assert_eq!(getdents_precheck(64, Some(dir), T_DIR), Some(48));
    assert_eq!(getdents_precheck(31, Some(dir), T_DIR), None);
    assert_eq!(getdents_precheck(64, None, T_DIR), None);
    assert_eq!(getdents_precheck(64, Some(File::Console), T_DIR), None);
    assert_eq!(getdents_precheck(64, Some(wo), T_DIR), None);
    assert_eq!(getdents_precheck(64, Some(dir), T_FILE), None);
}

#[test]
fn user_buffers_must_be_user_writable() {
    let mut a = FrameAllocImpl::new();
    a.add_range(0x8100_0000, 0x8100_0000 + 8 * 4096);
    let mut pt = PageTable::new(&mut a).unwrap();
    assert_eq!(pt.map(0x1000, 0x9000_0000, 4096, PtePerm::urw(), &mut a), Ok(()));
    assert_eq!(pt.map(0x2000, 0x9000_1000, 4096, PtePerm(9), &mut a), Ok(()));
    assert_eq!(writable_prefix(&pt, 0x1000, 4096), 4096);
    assert_eq!(writable_prefix(&pt, 0x1ff0, 0), 0);
    // The page at 0x2000 is user but read-only.
    assert_eq!(writable_prefix(&pt, 0x1ff0, 32), 16);
    assert_eq!(writable_prefix(&pt, 0x3000, 1), 0);
    assert_eq!(writable_prefix(&pt, u64::MAX, 2), 0);
}

#[test]
fn getdents_checks_only_the_bytes_it_writes() {
    let mut a = FrameAllocImpl::new();
    a.add_range(0x8100_0000, 0x8100_0000 + 8 * 4096);
    let mut pt = PageTable::new(&mut a).unwrap();
    assert_eq!(pt.map(0x1000, 0x9000_0000, 4096, PtePerm::urw(), &mut a), Ok(()));
    let mut dir = Vec::new();
    dir.extend(dirent(1, b"."));
    dir.extend(dirent(9, b"file"));
    let f = File::Inode { inum: 3, off: 0, readable: true, writable: false, append: false };
    // The buffer reaches an unmapped page, but the records fit before it.
    let r = sys_getdents_in(&pt, Some(f), T_DIR, &dir, 0x1f00, 0x1000);
    assert_eq!((r.ret, r.off, r.copy_out.len()), (64, Some(32), 64));
    // A record that crosses into the unmapped page fails there.
    let r = sys_getdents_in(&pt, Some(f), T_DIR, &dir, 0x1fd0, 64);
    assert_eq!((r.ret, r.off, r.copy_out.len()), (-1, None, 48));
    // At the end of the directory nothing is written: 0, whatever the buffer.
    let at_end = File::Inode { inum: 3, off: 32, readable: true, writable: false, append: false };
    let r = sys_getdents_in(&pt, Some(at_end), T_DIR, &dir, 0x5000, 64);
    assert_eq!((r.ret, r.off, r.copy_out.len()), (0, Some(32), 0));
    // The argument checks come first.
    let r = sys_getdents_in(&pt, Some(f), T_FILE, &dir, 0x1000, 64);
    assert_eq!((r.ret, r.off, r.copy_out.len()), (-1, None, 0));
}

#[test]
fn kill_over_the_process_table() {
    let mut procs = vec![test_proc(0), test_proc(0)];
    procs[1].pid = 9;
    procs[1].sig_actions[SIGUSR1 as usize].handler = 0x4000;
    assert_eq!(sys_kill(&mut procs, 0, SIGKILL), (-1, SignalEffect::Unchanged));
    assert_eq!(sys_kill(&mut procs, 9, 32), (-1, SignalEffect::Unchanged));
    assert_eq!(sys_kill(&mut procs, 5, SIGKILL), (-1, SignalEffect::Unchanged));
    assert_eq!(sys_kill(&mut procs, 9, 0), (0, SignalEffect::Unchanged));
    // Signal numbers this kernel does not define are refused.
    procs[1].sig_actions[5].handler = 0x4000;
    assert_eq!(sys_kill(&mut procs, 9, 5), (-1, SignalEffect::Unchanged));
    assert_eq!(sys_kill(&mut procs, 9, 20), (-1, SignalEffect::Unchanged));
    assert_eq!(procs[1].sig_pending, 0);
    assert_eq!(sys_kill(&mut procs, 9, SIGUSR1), (0, SignalEffect::Queued));
    assert_eq!(procs[1].sig_pending, 1 << SIGUSR1);
    assert!(!procs[0].killed);
    assert_eq!(sys_kill(&mut procs, 7, SIGKILL), (0, SignalEffect::Killed));
    assert!(procs[0].killed && !procs[1].killed);
}

#[test]
fn alarms_fire_only_when_current() {
    let mut p = test_proc(0);
    assert!(!fire_alarm(&mut p, 3, 4));
    assert!(!p.killed);
    // SIGALRM left at its default terminates.
    assert!(fire_alarm(&mut p, 4, 4));
    assert!(p.killed);
    let mut q = test_proc(0);
    q.sig_actions[SIGALRM as usize].handler = 0x5000;
    assert!(fire_alarm(&mut q, 1, 1));
    assert_eq!(q.sig_pending, 1 << SIGALRM);
    assert!(!q.killed);
}

#[test]
fn console_readers_woken_once_each() {
    let mut st = ConsIn::new();
    register_waker(&mut st, 1);
    register_waker(&mut st, 2);
    register_waker(&mut st, 1);
    assert_eq!(wake(&mut st), vec![1, 2]);
    assert_eq!(wake(&mut st), Vec::<u64>::new());
}

#[test]
fn rename_overwrites_files_only() {
    assert_eq!(rename_overwrite(None), Some(None));
    assert_eq!(rename_overwrite(Some((T_FILE, 2))), Some(Some(1)));
    assert_eq!(rename_overwrite(Some((T_FILE, 0))), Some(Some(0)));
    assert_eq!(rename_overwrite(Some((T_DIR, 2))), None);
}
