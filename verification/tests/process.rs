use xv6_kernel::fork::{fork_address_space, fork_trapframe};
use xv6_kernel::hal::{FrameAllocator, PtePerm, UserTrapCause};
use xv6_kernel::kalloc::FrameAllocImpl;
use xv6_kernel::proc::{default_files, exec_trapframe, user_trap_event, Proc, ProcState, TrapEvent, UserMode};
use xv6_kernel::cpu::{take_user_target, Cpu};
use xv6_kernel::file::FdEntry;
use xv6_kernel::riscv::{prepare_return, user_sstatus, TrapFrame, KERNBASE, PGSIZE, PHYSTOP, PLIC, TRAMPOLINE, TRAPFRAME, UART0};
use xv6_kernel::signal::{maybe_deliver_signal, sys_sigreturn, Delivery};
use xv6_kernel::sv39::PageTable;
use xv6_kernel::uapi::{SigAction, SIG_IGN};
use xv6_kernel::user_vm::{STACK_TOP_PAGE_VA, STACK_VA_BASE};
use xv6_kernel::vm::kvm_make;
use xv6_kernel::syscall::{lazy_map_page, sys_sbrk, HEAP_TOP};

fn frames(pages: u64) -> FrameAllocImpl {
    let mut a = FrameAllocImpl::new();
    a.add_range(0x8100_0000, 0x8100_0000 + pages * PGSIZE);
    a
}

fn tf() -> TrapFrame {
    TrapFrame {
        kernel_satp: 0, kernel_sp: 0, kernel_trap: 0, epc: 0x1234, kernel_hartid: 0, ra: 0x40, sp: 0x5000, gp: 0,
        tp: 0, t0: 0, t1: 0, t2: 0, s0: 0, s1: 0, a0: 77, a1: 2, a2: 3, a3: 4, a4: 5, a5: 6, a6: 7, a7: 16, s2: 0,
        s3: 0, s4: 0, s5: 0, s6: 0, s7: 0, s8: 0, s9: 0, s10: 0, s11: 0, t3: 0, t4: 0, t5: 0, t6: 0,
    }
}

fn proc_with(pending: u32, blocked: u32) -> Proc {
    let mut a = frames(4);
    Proc {
        pid: 3,
        state: ProcState::Runnable,
        exit_code: 0,
        pagetable: PageTable::new(&mut a).unwrap(),
        trapframe_pa: 0,
        size: 0,
        task_id: 0,
        pending_trap: None,
        killed: false,
        files: default_files(1),
        uid: 0,
        gid: 0,
        umask: 0,
        sig_actions: vec![SigAction::default_action(); 32],
        sig_pending: pending,
        sig_blocked: blocked,
        sig_saved_frame: None,
        sig_saved_blocked: 0,
        cwd: None,
    }
}

#[test]
fn signal_handler_round_trip() {
    let mut p = proc_with((1 << 10) | (1 << 12), 1 << 10);
    p.sig_actions[12] = SigAction { handler: 0x9000, restorer: 0x9100, mask: 0 };
    p.sig_saved_blocked = 1 << 10;
    let mut t = tf();
    let before = t;
    assert_eq!(maybe_deliver_signal(&mut p, &mut t), Delivery::Delivered(12));
    assert_eq!(t.a0, 12);
    assert_eq!(t.epc, 0x9000);
    assert_eq!(t.ra, 0x9100);
    assert_eq!(t.sp, before.sp);
    assert_eq!(p.sig_pending, 1 << 10);
    // No nesting while the handler runs.
    p.sig_pending |= 1 << 12;
    assert_eq!(maybe_deliver_signal(&mut p, &mut t), Delivery::Busy);
    t.a0 = 999;
    t.epc = 0x9044;
    assert_eq!(sys_sigreturn(&mut p, &mut t), 77);
    assert_eq!(t.epc, 0x1234);
    assert_eq!(t.ra, 0x40);
    assert_eq!(t.a0, 77);
    assert!(p.sig_saved_frame.is_none());
    assert_eq!(p.sig_blocked, 1 << 10);
    assert_eq!(sys_sigreturn(&mut p, &mut t), -1);
}

#[test]
fn signal_dropped_refused_or_absent() {
    let mut t = tf();
    let mut idle = proc_with(1 << 5, 1 << 5);
    assert_eq!(maybe_deliver_signal(&mut idle, &mut t), Delivery::Nothing);
    let mut dfl = proc_with(1 << 5, 0);
    assert_eq!(maybe_deliver_signal(&mut dfl, &mut t), Delivery::Dropped(5));
    assert_eq!(dfl.sig_pending, 0);
    let mut ign = proc_with(1 << 6, 0);
    ign.sig_actions[6] = SigAction { handler: SIG_IGN, restorer: 0, mask: 0 };
    assert_eq!(maybe_deliver_signal(&mut ign, &mut t), Delivery::Dropped(6));
    let mut norest = proc_with(1 << 7, 0);
    norest.sig_actions[7] = SigAction { handler: 0x9000, restorer: 0, mask: 0 };
    assert_eq!(maybe_deliver_signal(&mut norest, &mut t), Delivery::Refused(7));
    assert_eq!(norest.sig_pending, 1 << 7);
    assert_eq!(t.epc, 0x1234);
}

#[test]
fn user_trap_events() {
    assert_eq!(user_trap_event(UserTrapCause::Syscall, 5, false), (TrapEvent::Syscall { nr: 5 }, false));
    assert_eq!(user_trap_event(UserTrapCause::Timer, 5, false), (TrapEvent::Timer, false));
    assert_eq!(user_trap_event(UserTrapCause::Devintr, 5, false), (TrapEvent::Devintr, false));
    assert_eq!(user_trap_event(UserTrapCause::PageFault { va: 1, write: true }, 0, true), (TrapEvent::Timer, false));
    assert_eq!(user_trap_event(UserTrapCause::PageFault { va: 1, write: true }, 0, false), (TrapEvent::Timer, true));
    assert_eq!(user_trap_event(UserTrapCause::Unknown { code: 2, va: 0 }, 0, true), (TrapEvent::Timer, true));
}

#[test]
fn return_path_registers() {
    assert_eq!(user_sstatus(0x100), 0x2020);
    assert_eq!(user_sstatus(0x6002), 0x2022);
    let mut t = tf();
    prepare_return(&mut t, 0x8000_0000_0008_0000, 0x3f_ffff_c000, 0x8000_1000, 3);
    assert_eq!(t.kernel_satp, 0x8000_0000_0008_0000);
    assert_eq!(t.kernel_sp, 0x3f_ffff_c000);
    assert_eq!(t.kernel_trap, 0x8000_1000);
    assert_eq!(t.kernel_hartid, 3);
    assert_eq!(t.a0, 77);
    assert_eq!(fork_trapframe(&t).a0, 0);
    assert_eq!(fork_trapframe(&t).epc, t.epc);
}

#[test]
fn fork_copies_image_and_stack() {
    let mut a = frames(64);
    let mut parent = PageTable::new(&mut a).unwrap();
    let code_pa = 0x9000_0000u64;
    assert!(parent.map(0, code_pa, 2 * PGSIZE, PtePerm(13), &mut a).is_ok());
    assert!(parent.map(STACK_VA_BASE, 0x9100_0000, PGSIZE, PtePerm::urw(), &mut a).is_ok());
    // The top stack page holds sp and argv; it is copied too.
    assert!(parent.map(STACK_TOP_PAGE_VA, 0x9200_0000, PGSIZE, PtePerm::urw(), &mut a).is_ok());
    let mut b = frames(64);
    let tramp = 0x8800_0000u64;
    let (child, tf_pa, copies) = fork_address_space(&parent, &mut b, 2 * PGSIZE - 100, tramp).unwrap();
    assert_eq!(copies.len(), 4);
    assert_eq!(copies[0].0, code_pa);
    assert_eq!(copies[1].0, code_pa + PGSIZE);
    assert_eq!(copies[2].0, 0x9100_0000);
    assert_eq!(copies[3].0, 0x9200_0000);
    assert_eq!(child.translate(0), Some((copies[0].1, PtePerm(13))));
    assert_eq!(child.translate(PGSIZE), Some((copies[1].1, PtePerm(13))));
    assert_eq!(child.translate(STACK_VA_BASE), Some((copies[2].1, PtePerm(11))));
    assert_eq!(child.translate(STACK_TOP_PAGE_VA + 8), Some((copies[3].1 + 8, PtePerm(11))));
    // A stack page the parent does not map stays unmapped.
    assert_eq!(child.translate(STACK_VA_BASE + PGSIZE), None);
    assert_eq!(child.translate(2 * PGSIZE), None);
    assert_eq!(child.translate(TRAMPOLINE), Some((tramp, PtePerm(5))));
    assert_eq!(child.translate(TRAPFRAME), Some((tf_pa, PtePerm(3))));
    assert_ne!(copies[0].1, copies[1].1);
    // A hole in the parent's image makes fork fail.
    let mut c = frames(64);
    assert!(fork_address_space(&parent, &mut c, 3 * PGSIZE, tramp).is_none());
    let mut none = FrameAllocImpl::new();
    assert!(fork_address_space(&parent, &mut none, PGSIZE, tramp).is_none());
    assert_eq!(none.alloc_zeroed(), None);
}

#[test]
fn kernel_page_table() {
    let mut a = FrameAllocImpl::new();
    a.add_range(PHYSTOP, PHYSTOP + 128 * PGSIZE);
    let etext = KERNBASE + 0x20_000;
    let tramp = KERNBASE + 0x1f_000;
    let pt = kvm_make(&mut a, etext, tramp).unwrap();
    assert_eq!(pt.translate(UART0), Some((UART0, PtePerm(3))));
    assert_eq!(pt.translate(PLIC + 0x2004), Some((PLIC + 0x2004, PtePerm(3))));
    assert_eq!(pt.translate(KERNBASE + 0x123), Some((KERNBASE + 0x123, PtePerm(5))));
    assert_eq!(pt.translate(etext), Some((etext, PtePerm(3))));
    assert_eq!(pt.translate(PHYSTOP - 8), Some((PHYSTOP - 8, PtePerm(3))));
    assert_eq!(pt.translate(PHYSTOP), None);
    assert_eq!(pt.translate(TRAMPOLINE + 4), Some((tramp + 4, PtePerm(5))));
    assert_eq!(pt.translate(0x1000), None);
}

#[test]
fn exec_resets_registers_and_closes_cloexec() {
    let t = exec_trapframe(0x1000, 0x3f_ffff_dfd8, 0x3f_ffff_dfe0);
    assert_eq!(t.epc, 0x1000);
    assert_eq!(t.sp, 0x3f_ffff_dfd8);
    assert_eq!(t.a1, 0x3f_ffff_dfe0);
    assert_eq!(t.a0, 0);
    assert_eq!(t.ra, 0);
    let mut p = proc_with(0, 0);
    p.files[4] = Some(FdEntry { file: 9, cloexec: true, nonblock: false });
    p.files[5] = Some(FdEntry { file: 10, cloexec: false, nonblock: true });
    p.close_on_exec();
    assert_eq!(p.files[4], None);
    assert_eq!(p.files[5], Some(FdEntry { file: 10, cloexec: false, nonblock: true }));
    assert_eq!(p.files[0], Some(FdEntry { file: 1, cloexec: false, nonblock: false }));
}

#[test]
fn sbrk_grow_and_shrink() {
    let mut a = frames(32);
    let mut pt = PageTable::new(&mut a).unwrap();
    let size: u64 = 0x3000;
    // Eager growth maps the pages from the old break's page up to the new one.
    let (r, new_size, freed) = sys_sbrk(&mut pt, &mut a, size, 0x2800, 0);
    assert_eq!((r, new_size, freed.len()), (0x3000, 0x5800, 0));
    assert_eq!(pt.translate(0x2fff), None);
    assert!(matches!(pt.translate(0x3000), Some((_, PtePerm(11)))));
    assert!(matches!(pt.translate(0x5fff), Some((_, PtePerm(11)))));
    assert_eq!(pt.translate(0x6000), None);
    let f3 = pt.translate(0x3000).unwrap().0;
    let f5 = pt.translate(0x5000).unwrap().0;
    // Shrinking by the same amount unmaps those pages and hands back their frames.
    let (r, back, freed) = sys_sbrk(&mut pt, &mut a, new_size, -0x2800, 0);
    assert_eq!((r, back), (0x5800, 0x3000));
    assert_eq!(freed.len(), 3);
    assert_eq!(freed[0], f3);
    assert_eq!(freed[2], f5);
    for va in [0x3000u64, 0x4000, 0x5000] {
        assert_eq!(pt.translate(va), None);
    }
}

#[test]
fn sbrk_edges() {
    let mut a = frames(8);
    let mut pt = PageTable::new(&mut a).unwrap();
    assert_eq!(sys_sbrk(&mut pt, &mut a, 0x1000, 0, 0), (0x1000, 0x1000, vec![]));
    assert_eq!(sys_sbrk(&mut pt, &mut a, 0x1000, -0x1001, 0), (-1, 0x1000, vec![]));
    assert_eq!(sys_sbrk(&mut pt, &mut a, HEAP_TOP - 0x10, 0x11, 0), (-1, HEAP_TOP - 0x10, vec![]));
    let huge = i64::MAX as u64 - 4095;
    assert_eq!(sys_sbrk(&mut pt, &mut a, huge, 0x1000, 0), (-1, huge, vec![]));
    // Lazy growth only moves the break.
    assert_eq!(sys_sbrk(&mut pt, &mut a, 0x1000, 0x4000, 1), (0x1000, 0x5000, vec![]));
    assert_eq!(pt.translate(0x2000), None);
    // A fault below the break maps a page; one at or above it is refused.
    assert_eq!(lazy_map_page(&mut pt, &mut a, 0x5000, 0x2abc), (true, None));
    assert!(matches!(pt.translate(0x2000), Some((_, PtePerm(11)))));
    assert_eq!(lazy_map_page(&mut pt, &mut a, 0x5000, 0x2000), (true, None));
    assert_eq!(lazy_map_page(&mut pt, &mut a, 0x5000, 0x5000), (false, None));
}

#[test]
fn sbrk_eager_out_of_frames_rolls_back() {
    let mut a = frames(4);
    let mut pt = PageTable::new(&mut a).unwrap();
    let (r, size, freed) = sys_sbrk(&mut pt, &mut a, 0, 0x40_0000, 0);
    assert_eq!((r, size), (-1, 0));
    assert!(!freed.is_empty());
    assert_eq!(pt.translate(0), None);
    assert_eq!(pt.translate(0x1000), None);
}

#[test]
fn exit_then_release_gives_back_every_frame() {
    let mut p = proc_with(0, 0);
    p.trapframe_pa = 0x8200_0000;
    let root = p.pagetable.root_pa();
    let mut a = frames(4);
    let empty = PageTable::new(&mut a).unwrap();
    let old_pt = p.exit(7, empty);
    assert_eq!(p.state, ProcState::Zombie);
    assert_eq!(p.exit_code, 7);
    assert_eq!(old_pt.root_pa(), root);
    p.pagetable = old_pt;
    assert_eq!(p.release(), vec![root, 0x8200_0000]);
}

#[test]
fn user_mode_poll_takes_trap_or_targets_hart() {
    let mut p = proc_with(0, 0);
    let mut cpu = Cpu::new();
    // Nothing pending: the hart is told to run this process.
    assert_eq!(UserMode::run(&mut p, &mut cpu), None);
    assert_eq!(take_user_target(&mut cpu), Some(p.pid));
    // A pending trap is handed over and the hart left alone.
    p.pending_trap = Some(TrapEvent::Timer);
    assert_eq!(UserMode::run(&mut p, &mut cpu), Some(TrapEvent::Timer));
    assert!(p.pending_trap.is_none());
    assert_eq!(take_user_target(&mut cpu), None);
}

#[test]
fn fork_builds_the_child_record() {
    let mut parent = proc_with(1 << 10, 1 << 12);
    let mut a = frames(16);
    assert!(parent.pagetable.map(0, 0x9000_0000, PGSIZE, PtePerm(13), &mut a).is_ok());
    parent.size = PGSIZE;
    parent.uid = 1000;
    parent.umask = 0o77;
    parent.sig_actions[10].handler = SIG_IGN;
    parent.files[4] = Some(FdEntry { file: 42, cloexec: true, nonblock: false });
    parent.cwd = Some((0, 9));
    parent.killed = true;
    let mut b = frames(64);
    let (child, copies) = Proc::fork_from(&parent, &mut b, 8, 0x8800_0000).unwrap();
    assert_eq!(child.pid, 8);
    assert_eq!(child.state, ProcState::Runnable);
    assert_eq!(child.size, PGSIZE);
    assert_eq!(child.files, parent.files);
    assert_eq!(child.files[4], Some(FdEntry { file: 42, cloexec: true, nonblock: false }));
    assert_eq!(child.uid, 1000);
    assert_eq!(child.umask, 0o77);
    assert_eq!(child.sig_actions[10].handler, SIG_IGN);
    assert_eq!(child.sig_pending, 0);
    assert_eq!(child.sig_blocked, 1 << 12);
    assert_eq!(child.cwd, Some((0, 9)));
    assert!(!child.killed);
    assert_eq!(copies.len(), 1);
    assert_eq!(copies[0].0, 0x9000_0000);
    assert_eq!(child.pagetable.translate(0), Some((copies[0].1, PtePerm(13))));
    assert_eq!(child.pagetable.translate(TRAPFRAME), Some((child.trapframe_pa, PtePerm(3))));
    // Without frames there is no child.
    let mut none = FrameAllocImpl::new();
    assert!(Proc::fork_from(&parent, &mut none, 9, 0x8800_0000).is_none());
}
