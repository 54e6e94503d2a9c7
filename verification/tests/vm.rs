use xv6_kernel::bytes::{get_be_u16, get_be_u32, get_u16, get_u32, get_u64, put_be_u32, put_be_u64, put_u16, put_u32, put_u64};
use xv6_kernel::elf::{load_program, phdr_perms, ElfError};
use xv6_kernel::hal::{FrameAllocator, PageTableOps, PtePerm, VmError};
use xv6_kernel::heap::{stats, HeapState, HEAP_SIZE};
use xv6_kernel::kalloc::FrameAllocImpl;
use xv6_kernel::proc::{default_files, Proc, ProcState};
use xv6_kernel::uapi::SigAction;
use xv6_kernel::riscv::{kstack, Pte, PGSIZE, SATP_SV39, TRAMPOLINE, TRAPFRAME};
use xv6_kernel::sv39::{satp_value, PageTable};
use xv6_kernel::user_vm::{build_image_from_elf, place_argv_envp_on_stack, place_argv_on_stack, UserVmError, STACK_PAGES, STACK_VA_BASE};

const RAM: u64 = 0x8000_0000;

fn allocator(pages: u64) -> FrameAllocImpl {
    let mut a = FrameAllocImpl::new();
    a.add_range(RAM, RAM + pages * PGSIZE);
    a
}

#[test]
fn little_and_big_endian_codecs() {
    let mut b = vec![0u8; 16];
    put_u16(&mut b, 0, 0x1234);
    put_u32(&mut b, 2, 0xdead_beef);
    put_u64(&mut b, 8, 0x0102_0304_0506_0708);
    assert_eq!(&b[0..6], &[0x34, 0x12, 0xef, 0xbe, 0xad, 0xde]);
    assert_eq!(get_u16(&b, 0), 0x1234);
    assert_eq!(get_u32(&b, 2), 0xdead_beef);
    assert_eq!(get_u64(&b, 8), 0x0102_0304_0506_0708);
    put_be_u32(&mut b, 0, 0x0a0b_0c0d);
    assert_eq!(&b[0..4], &[0x0a, 0x0b, 0x0c, 0x0d]);
    assert_eq!(get_be_u32(&b, 0), 0x0a0b_0c0d);
    assert_eq!(get_be_u16(&b, 2), 0x0c0d);
    put_be_u64(&mut b, 8, 0x1122_3344_5566_7788);
    assert_eq!(&b[8..16], &[0x11, 0x22, 0x33, 0x44, 0x55, 0x66, 0x77, 0x88]);
}

#[test]
fn pte_leaf_roundtrip() {
    let pa = 0x8765_4000u64;
    let e = Pte::make_leaf(pa, PtePerm::urw());
    assert!(e.is_valid());
    assert!(e.is_leaf());
    assert_eq!(e.pa(), pa);
    assert_eq!(e.flags_perm(), PtePerm(11));
    assert_eq!(e.0, ((pa >> 12) << 10) | 0b10111);
    let br = Pte::make_branch(pa);
    assert!(br.is_valid());
    assert!(!br.is_leaf());
    assert_eq!(br.pa(), pa);
    assert!(!Pte::empty().is_valid());
}

#[test]
fn kernel_stack_addresses() {
    assert_eq!(kstack(0), TRAMPOLINE - 2 * PGSIZE);
    assert_eq!(kstack(3), TRAMPOLINE - 8 * PGSIZE);
}

#[test]
fn frame_allocator_hands_out_added_frames() {
    let mut a = FrameAllocImpl::new();
    assert_eq!(a.free_count(), 0);
    assert_eq!(a.alloc_zeroed(), None);
    // Partial pages at either end are not used.
    a.add_range(RAM + 100, RAM + 3 * PGSIZE + 5);
    assert_eq!(a.free_count(), 2);
    assert_eq!(a.alloc_zeroed(), Some(RAM + 2 * PGSIZE));
    assert_eq!(a.alloc_zeroed(), Some(RAM + PGSIZE));
    assert_eq!(a.alloc_zeroed(), None);
    a.free(RAM + PGSIZE);
    assert_eq!(a.alloc_zeroed(), Some(RAM + PGSIZE));
}

#[test]
fn page_table_map_translate_unmap() {
    let mut a = allocator(16);
    let mut pt = PageTable::new(&mut a).unwrap();
    let root = pt.root_pa();
    assert_eq!(satp_value(&pt), SATP_SV39 | (root >> 12));
    assert_eq!(pt.translate(0x1000), None);
    let pa = 0x9000_0000u64;
    assert_eq!(pt.map(0x1000, pa, 2 * PGSIZE, PtePerm::urw(), &mut a), Ok(()));
    assert_eq!(pt.translate(0x1000), Some((pa, PtePerm(11))));
    assert_eq!(pt.translate(0x2abc), Some((pa + 0x1abc, PtePerm(11))));
    assert_eq!(pt.translate(0x3000), None);
    assert_eq!(pt.map(0x2000, pa, PGSIZE, PtePerm::r(), &mut a), Err(VmError::Remap));
    assert_eq!(pt.unmap_page(0x1234), Some(pa));
    assert_eq!(pt.translate(0x1000), None);
    assert_eq!(pt.translate(0x2000), Some((pa + PGSIZE, PtePerm(11))));
    assert_eq!(pt.unmap_page(0x1000), None);
}

#[test]
fn page_table_map_errors() {
    let mut a = allocator(4);
    let mut pt = PageTable::new(&mut a).unwrap();
    assert_eq!(pt.map(0x1001, 0x9000_0000, PGSIZE, PtePerm::r(), &mut a), Err(VmError::Misaligned));
    assert_eq!(pt.map(0x1000, 0x9000_0000, 0, PtePerm::r(), &mut a), Err(VmError::Misaligned));
    assert_eq!(pt.map(0x40_0000_0000 - PGSIZE, 0x9000_0000, 2 * PGSIZE, PtePerm::r(), &mut a), Err(VmError::OutOfRange));
    let mut none = FrameAllocImpl::new();
    assert_eq!(PageTable::new(&mut none).err(), Some(VmError::Oom));
    let mut one = allocator(1);
    let mut pt = PageTable::new(&mut one).unwrap();
    assert_eq!(pt.map(0x1000, 0x9000_0000, PGSIZE, PtePerm::r(), &mut one), Err(VmError::Oom));
}

#[test]
fn heap_first_fit_and_coalescing() {
    let base = 0x10000u64;
    let mut h = HeapState::new(base);
    assert_eq!(stats(&h), (0, 0));
    let a = h.allocate(24, 8);
    assert_eq!(a, Some((base + 16, 48)));
    let b = h.allocate(100, 64);
    assert_eq!(b, Some((0x10040, 128)));
    assert_eq!(stats(&h), (176, 176));
    h.deallocate(base + 16, 48);
    assert_eq!(stats(&h), (128, 176));
    // The freed block is found first again.
    assert_eq!(h.allocate(24, 8), Some((base + 16, 48)));
    h.deallocate(base + 16, 48);
    h.deallocate(0x10040, 128);
    assert_eq!(stats(&h), (0, 176));
    // Everything merged back: the whole arena is one block again.
    assert_eq!(h.allocate(HEAP_SIZE - 16, 16), Some((base + 16, HEAP_SIZE)));
}

#[test]
fn heap_refuses_oversized_request() {
    let mut h = HeapState::new(0x10000);
    assert_eq!(h.allocate(HEAP_SIZE, 16), None);
    assert_eq!(stats(&h), (0, 0));
    h.deallocate(0, 64);
    assert_eq!(stats(&h), (0, 0));
}

fn minimal_elf(machine: u16) -> Vec<u8> {
    let mut e = vec![0u8; 0x200];
    e[0..4].copy_from_slice(&[0x7f, b'E', b'L', b'F']);
    e[18..20].copy_from_slice(&machine.to_le_bytes());
    e[24..32].copy_from_slice(&0x1000u64.to_le_bytes());
    e[32..40].copy_from_slice(&64u64.to_le_bytes());
    e[54..56].copy_from_slice(&56u16.to_le_bytes());
    e[56..58].copy_from_slice(&1u16.to_le_bytes());
    let ph = 64;
    e[ph..ph + 4].copy_from_slice(&1u32.to_le_bytes());
    e[ph + 4..ph + 8].copy_from_slice(&5u32.to_le_bytes());
    e[ph + 8..ph + 16].copy_from_slice(&0x100u64.to_le_bytes());
    e[ph + 16..ph + 24].copy_from_slice(&0x1000u64.to_le_bytes());
    e[ph + 32..ph + 40].copy_from_slice(&16u64.to_le_bytes());
    e[ph + 40..ph + 48].copy_from_slice(&0x1800u64.to_le_bytes());
    for i in 0..16 {
        e[0x100 + i] = i as u8;
    }
    e
}

#[test]
fn segment_permissions() {
    assert_eq!(phdr_perms(0), PtePerm(8));
    assert_eq!(phdr_perms(4 | 1), PtePerm(8 | 1 | 4));
    assert_eq!(phdr_perms(4 | 2), PtePerm(8 | 1 | 2));
}

#[test]
fn load_program_maps_segments() {
    let mut a = allocator(32);
    let mut pt = PageTable::new(&mut a).unwrap();
    let elf = minimal_elf(243);
    let (entry, max_va, ops) = load_program(&mut pt, &mut a, &elf).unwrap();
    assert_eq!(entry, 0x1000);
    assert_eq!(max_va, 0x3000);
    let (pa0, perm) = pt.translate(0x1000).unwrap();
    assert_eq!(perm, PtePerm(8 | 1 | 4));
    assert!(pt.translate(0x2fff).is_some());
    assert!(pt.translate(0x3000).is_none());
    let copied: u64 = ops.iter().map(|o| o.len).sum();
    assert_eq!(copied, 16);
    assert_eq!(ops[0].src, 0x100);
    assert_eq!(ops[0].pa, pa0);
    assert_eq!(ops[0].dst, 0);
}

#[test]
fn load_program_splits_copies_at_page_boundary() {
    let mut a = allocator(32);
    let mut pt = PageTable::new(&mut a).unwrap();
    let mut elf = minimal_elf(243);
    // The segment's 16 file bytes straddle the boundary at 0x2000.
    elf[64 + 16..64 + 24].copy_from_slice(&0x1ff8u64.to_le_bytes());
    elf[64 + 40..64 + 48].copy_from_slice(&0x10u64.to_le_bytes());
    let (_, max_va, ops) = load_program(&mut pt, &mut a, &elf).unwrap();
    assert_eq!(max_va, 0x3000);
    let (pa0, _) = pt.translate(0x1000).unwrap();
    let (pa1, _) = pt.translate(0x2000).unwrap();
    assert_eq!(ops.len(), 2);
    assert_eq!((ops[0].pa, ops[0].dst, ops[0].src, ops[0].len), (pa0, 0xff8, 0x100, 8));
    assert_eq!((ops[1].pa, ops[1].dst, ops[1].src, ops[1].len), (pa1, 0, 0x108, 8));
}

#[test]
fn load_program_header_errors() {
    let mut a = allocator(8);
    let mut pt = PageTable::new(&mut a).unwrap();
    assert_eq!(load_program(&mut pt, &mut a, &[0x7f, b'E']).err(), Some(ElfError::Truncated));
    let mut bad = minimal_elf(243);
    bad[1] = b'X';
    assert_eq!(load_program(&mut pt, &mut a, &bad).err(), Some(ElfError::NotElf));
    assert_eq!(load_program(&mut pt, &mut a, &minimal_elf(62)).err(), Some(ElfError::WrongArch));
}

#[test]
fn user_image_layout() {
    let mut a = allocator(64);
    let tf = 0x8800_0000u64;
    let tramp = 0x8800_1000u64;
    let (img, _ops) = build_image_from_elf(&mut a, &minimal_elf(243), tf, tramp).unwrap();
    assert_eq!(img.entry, 0x1000);
    assert_eq!(img.code_end, 0x3000);
    assert_eq!(img.pagetable.translate(TRAMPOLINE), Some((tramp, PtePerm(5))));
    assert_eq!(img.pagetable.translate(TRAPFRAME), Some((tf, PtePerm(3))));
    assert_eq!(img.pagetable.translate(TRAPFRAME - PGSIZE), Some((img.stack_pa, PtePerm(11))));
    let mut none = FrameAllocImpl::new();
    assert_eq!(build_image_from_elf(&mut none, &minimal_elf(243), tf, tramp).err(), Some(UserVmError::Oom));
    let mut b = allocator(64);
    assert_eq!(
        build_image_from_elf(&mut b, &minimal_elf(62), tf, tramp).err(),
        Some(UserVmError::Elf(ElfError::WrongArch))
    );
}

#[test]
fn argv_block_on_stack() {
    let mut page = vec![0xeeu8; 4096];
    let argv = vec![b"sh".to_vec(), b"-c".to_vec()];
    let (sp, argv_va) = place_argv_on_stack(&mut page, &argv);
    assert_eq!(sp, TRAPFRAME - 40);
    assert_eq!(argv_va, sp + 8);
    assert_eq!(u64::from_le_bytes(page[4056..4064].try_into().unwrap()), 2);
    let str_va = 0x3f_ffff_d000u64 + 4088;
    assert_eq!(u64::from_le_bytes(page[4064..4072].try_into().unwrap()), str_va);
    assert_eq!(u64::from_le_bytes(page[4072..4080].try_into().unwrap()), str_va + 3);
    assert_eq!(u64::from_le_bytes(page[4080..4088].try_into().unwrap()), 0);
    assert_eq!(&page[4088..4094], b"sh\0-c\0");
    assert!(page[..4056].iter().all(|&b| b == 0xee));
}

#[test]
fn argv_and_envp_block_on_stack() {
    let mut page = vec![0u8; 4096];
    let argv = vec![b"sh".to_vec(), b"-c".to_vec()];
    let envp = vec![b"A=1".to_vec()];
    let (sp, argv_va, envp_va) = place_argv_envp_on_stack(&mut page, &argv, &envp);
    assert_eq!(sp, TRAPFRAME - 64);
    assert_eq!(argv_va, sp + 8);
    assert_eq!(envp_va, argv_va + 24);
    let mut none = vec![0u8; 4096];
    let (_, _, e) = place_argv_envp_on_stack(&mut none, &argv, &[]);
    assert_eq!(e, 0);
}

#[test]
fn page_table_trait_for_both_architectures() {
    let mut a = allocator(8);
    let mut pt = PageTable::new(&mut a).unwrap();
    assert_eq!(pt.map(0x4000, 0x9000_0000, PGSIZE, PtePerm::urw(), &mut a), Ok(()));
    assert_eq!(PageTableOps::translate(&pt, 0x4010), Some((0x9000_0010, PtePerm(11))));
    assert_eq!(PageTableOps::unmap_page(&mut pt, 0x4010), Some(0x9000_0000));
    assert_eq!(PageTableOps::translate(&pt, 0x4010), None);
    let mut b = allocator(2);
    let mut arm = xv6_kernel::aarch64::PageTable::new(&mut b).unwrap();
    assert_eq!(PageTableOps::translate(&arm, 0x4000), None);
    assert_eq!(PageTableOps::unmap_page(&mut arm, 0x4000), None);
    assert_eq!(arm.map(0x4000, 0x9000_0000, PGSIZE, PtePerm::r()), Ok(()));
    assert_eq!(arm.map(0x4001, 0x9000_0000, PGSIZE, PtePerm::r()), Err(VmError::Misaligned));
}

#[test]
fn page_table_reap_returns_owned_frames() {
    let mut a = allocator(8);
    let before = a.free_count();
    let mut pt = PageTable::new(&mut a).unwrap();
    let root = pt.root_pa();
    let user = a.alloc_zeroed().unwrap();
    assert_eq!(pt.map(0x1000, user, PGSIZE, PtePerm::urw(), &mut a), Ok(()));
    // A kernel-only page (no U bit) is not the table's to free.
    assert_eq!(pt.map(0x2000, 0x9000_0000, PGSIZE, PtePerm::r(), &mut a), Ok(()));
    let mut frames = pt.reap();
    assert_eq!(frames.len(), 4);
    assert_eq!(frames[0], root);
    assert_eq!(frames[3], user);
    assert!(!frames.contains(&0x9000_0000));
    frames.sort();
    frames.dedup();
    assert_eq!(frames.len(), 4);
    for f in frames {
        a.free(f);
    }
    assert_eq!(a.free_count(), before);
}

#[test]
fn image_frames_all_come_back() {
    let mut a = allocator(64);
    let before = a.free_count();
    let tramp = 0x8800_1000u64;
    let tf = a.alloc_zeroed().unwrap();
    let (img, _ops) = build_image_from_elf(&mut a, &minimal_elf(243), tf, tramp).unwrap();
    // Eight distinct stack frames.
    let mut stack: Vec<u64> =
        (0..8).map(|i| img.pagetable.translate(STACK_VA_BASE + i * PGSIZE).unwrap().0).collect();
    stack.sort();
    stack.dedup();
    assert_eq!(stack.len(), 8);
    let mut back = img.pagetable.reap();
    back.push(tf);
    assert_eq!(back.len(), before - a.free_count());
    for f in back {
        a.free(f);
    }
    assert_eq!(a.free_count(), before);
}

#[test]
fn fork_exec_exit_returns_every_frame() {
    let tramp = 0x8800_1000u64;
    let mut elf = minimal_elf(243);
    // One segment at 0 so the image has no hole below its end.
    elf[64 + 16..64 + 24].copy_from_slice(&0u64.to_le_bytes());
    let mut a = allocator(256);
    let tf = a.alloc_zeroed().unwrap();
    let (img, _) = build_image_from_elf(&mut a, &elf, tf, tramp).unwrap();
    let parent = Proc {
        pid: 1,
        state: ProcState::Runnable,
        exit_code: 0,
        pagetable: img.pagetable,
        trapframe_pa: tf,
        size: img.code_end,
        task_id: 0,
        pending_trap: None,
        killed: false,
        files: default_files(0),
        uid: 0,
        gid: 0,
        umask: 0o22,
        sig_actions: vec![SigAction::default_action(); 32],
        sig_pending: 0,
        sig_blocked: 0,
        sig_saved_frame: None,
        sig_saved_blocked: 0,
        cwd: None,
    };
    let c0 = a.free_count();
    let (mut child, copies) = Proc::fork_from(&parent, &mut a, 2, tramp).unwrap();
    assert_eq!(copies.len(), 2 + STACK_PAGES as usize);
    assert!(a.free_count() < c0);
    // exec in the child: a new image on the same trap frame; the old
    // table is reaped.
    let (img2, _) = build_image_from_elf(&mut a, &elf, child.trapframe_pa, tramp).unwrap();
    let old = child.replace_image(img2.pagetable, img2.code_end);
    for pa in old.reap() {
        a.free(pa);
    }
    // exit, then the parent's wait releases the child.
    for pa in child.release() {
        a.free(pa);
    }
    assert_eq!(a.free_count(), c0);
}
