use xv6_kernel::driver::bio::{bread_step, init, load_done, Buffer, Cache, Role, BLOCK_INVALID, NBUF};
use xv6_kernel::driver::ramfb::{
    clear, dims, draw_test_pattern, find_file, present as fb_present, probe_ok as fb_probe_ok, ramfb_cfg_bytes,
    size_bytes, Ramfb, DRM_FORMAT_XRGB8888, FB_PIXELS, HEIGHT, WIDTH,
};
use xv6_kernel::driver::virtio_blk::{
    alloc_three, build_chain, collect_completions, finish_status, free_chain, negotiate_features, probe_ok, queue_ok, split_addr,
    status_sequence, DiskError, VirtqDesc, DESC_F_NEXT, DESC_F_WRITE, NUM, REQ_LEN, VIRTIO_BLK_T_IN,
    VIRTIO_BLK_T_OUT,
};
use xv6_kernel::driver::virtio_input::{
    accept_event, pending as input_pending, present as input_present, read_nonblock, register_waker, InputState,
};
use xv6_kernel::driver::virtio_net::{
    net_features, net_probe_ok, net_queue_ok, present as net_present, rx_post_all, NetDev, NetRxToken, NetTxToken,
};
use xv6_kernel::wait::WakerList;

#[test]
fn buffer_cache_roles() {
    let mut c = Cache::new();
    init(&mut c);
    assert_eq!(c.bufs.len(), NBUF);
    assert_eq!(c.bufs[0], Buffer { block_no: BLOCK_INVALID, valid: false, loading: false });
    let (i, r) = bread_step(&mut c, 7);
    assert_eq!((i, r), (0, Role::Loader));
    assert!(c.bufs[0].loading);
    assert_eq!(bread_step(&mut c, 7), (0, Role::Waiter));
    let (j, r) = bread_step(&mut c, 8);
    assert_eq!((j, r), (1, Role::Loader));
    load_done(&mut c, 0);
    assert_eq!(c.bufs[0], Buffer { block_no: 7, valid: true, loading: false });
    assert_eq!(bread_step(&mut c, 7), (0, Role::Hit));
    // Initializing twice keeps the pool.
    init(&mut c);
    assert!(c.bufs[0].valid);
}

#[test]
fn framebuffer() {
    let mut fb = Ramfb { present: true, stride: 2560, fb: vec![0; FB_PIXELS] };
    assert!(fb_present(&fb));
    assert_eq!(dims(&fb), (WIDTH, HEIGHT, 2560));
    assert_eq!(size_bytes(), 1_228_800);
    clear(&mut fb, 0x123456);
    assert!(fb.fb.iter().all(|&p| p == 0x123456));
    draw_test_pattern(&mut fb);
    assert_eq!(fb.fb[0], 0x00ff_0000);
    assert_eq!(fb.fb[639], 0x0000_ff00);
    assert_eq!(fb.fb[240 * 640], 0x0000_00ff);
    assert_eq!(fb.fb[FB_PIXELS - 1], 0x00ff_ffff);
    let mut off = Ramfb { present: false, stride: 0, fb: vec![7; 4] };
    clear(&mut off, 1);
    draw_test_pattern(&mut off);
    assert_eq!(off.fb, vec![7; 4]);
}

#[test]
fn fw_cfg_probe_and_lookup() {
    assert!(fb_probe_ok(b"QEMU", 3));
    assert!(!fb_probe_ok(b"QEMU", 1));
    assert!(!fb_probe_ok(b"QEMX", 3));
    let cfg = ramfb_cfg_bytes(0x8100_0000);
    assert_eq!(cfg.len(), 28);
    assert_eq!(&cfg[0..8], &0x8100_0000u64.to_be_bytes());
    assert_eq!(&cfg[8..12], &DRM_FORMAT_XRGB8888.to_be_bytes());
    assert_eq!(&cfg[16..20], &640u32.to_be_bytes());
    assert_eq!(&cfg[24..28], &2560u32.to_be_bytes());
    let mut entries = vec![0u8; 128];
    entries[0..4].copy_from_slice(&100u32.to_be_bytes());
    entries[4..6].copy_from_slice(&0x20u16.to_be_bytes());
    entries[8..18].copy_from_slice(b"etc/ramfbX");
    entries[64..68].copy_from_slice(&28u32.to_be_bytes());
    entries[68..70].copy_from_slice(&0x25u16.to_be_bytes());
    entries[72..81].copy_from_slice(b"etc/ramfb");
    assert_eq!(find_file(&entries, 2, b"etc/ramfb"), Some((0x25, 28)));
    assert_eq!(find_file(&entries, 1, b"etc/ramfb"), None);
}

#[test]
fn block_device_bringup() {
    assert!(probe_ok(0x7472_6976, 2, 2));
    assert!(!probe_ok(0x7472_6976, 1, 2));
    assert!(!probe_ok(0x7472_6976, 2, 1));
    assert_eq!(negotiate_features(0xffff_ffff), 0xffff_ffff & !0x3800_18a0);
    assert_eq!(negotiate_features(1 << 5), 0);
    assert!(queue_ok(0, 8));
    assert!(!queue_ok(1, 8));
    assert!(!queue_ok(0, 7));
    assert_eq!(status_sequence(), [0, 1, 3, 11, 15]);
    assert_eq!(split_addr(0x1_2345_6789), (0x2345_6789, 1));
}

#[test]
fn descriptor_allocation_and_release() {
    let mut free = [true; NUM];
    free[1] = false;
    assert_eq!(alloc_three(&mut free), Some([0, 2, 3]));
    assert_eq!(free, [false, false, false, false, true, true, true, true]);
    let mut few = [false, true, false, false, false, false, true, false];
    assert_eq!(alloc_three(&mut few), None);
    assert_eq!(few, [false, true, false, false, false, false, true, false]);

    let (typ, chain) = build_chain([0, 2, 3], false, 0x1000, 0x2000, 0x3000);
    assert_eq!(typ, VIRTIO_BLK_T_IN);
    assert_eq!(chain[0], VirtqDesc { addr: 0x1000, len: REQ_LEN, flags: DESC_F_NEXT, next: 2 });
    assert_eq!(chain[1], VirtqDesc { addr: 0x2000, len: 512, flags: DESC_F_NEXT | DESC_F_WRITE, next: 3 });
    assert_eq!(chain[2], VirtqDesc { addr: 0x3000, len: 1, flags: DESC_F_WRITE, next: 0 });
    let (wtyp, wchain) = build_chain([0, 2, 3], true, 0x1000, 0x2000, 0x3000);
    assert_eq!(wtyp, VIRTIO_BLK_T_OUT);
    assert_eq!(wchain[1].flags, DESC_F_NEXT);

    let mut descs = [VirtqDesc::zero(); NUM];
    descs[0] = chain[0];
    descs[2] = chain[1];
    descs[3] = chain[2];
    descs[5] = VirtqDesc { addr: 9, len: 9, flags: 0, next: 0 };
    free_chain(&mut free, &mut descs, 0);
    assert_eq!(free, [true, false, true, true, true, true, true, true]);
    assert_eq!(descs[0], VirtqDesc::zero());
    assert_eq!(descs[3], VirtqDesc::zero());
    assert_eq!(descs[5].addr, 9);
}

#[test]
fn request_status() {
    assert_eq!(finish_status(0), Ok(()));
    assert_eq!(finish_status(1), Err(DiskError::Status(1)));
}

#[test]
fn input_events() {
    let mut st = InputState { present: true, cooked: vec![], readers: WakerList::new() };
    assert!(input_present(&st));
    let ev = [1u8, 2, 3, 4, 5, 6, 7, 8];
    assert!(accept_event(&mut st, 8, &ev));
    assert!(!accept_event(&mut st, 7, &ev));
    assert_eq!(input_pending(&st), 8);
    assert!(accept_event(&mut st, 8, &ev));
    assert_eq!(read_nonblock(&mut st, 10), vec![1, 2, 3, 4, 5, 6, 7, 8, 1, 2]);
    assert_eq!(input_pending(&st), 6);
    register_waker(&mut st, 3);
    register_waker(&mut st, 3);
    assert_eq!(st.readers.list, vec![3]);
    let mut full = InputState { present: true, cooked: vec![0; 2048], readers: WakerList::new() };
    assert!(!accept_event(&mut full, 8, &ev));
    assert_eq!(full.cooked.len(), 2048);
}

#[test]
fn network_card_queues() {
    let mut dev = NetDev::new(true);
    assert!(net_present(&dev));
    assert!(dev.receive().is_none());
    let ring = [(3u32, 100u32), (4, 60), (0, 0), (0, 0), (0, 0), (0, 0), (0, 0), (1, 70)];
    dev.rx_used_idx = 0xffff;
    dev.collect_rx(1, &ring);
    assert_eq!(dev.rx_used_idx, 1);
    assert_eq!(dev.rx_ready.iter().copied().collect::<Vec<_>>(), vec![(1, 70), (3, 100)]);
    let (rx, _tx) = dev.receive().unwrap();
    assert_eq!((rx.idx, rx.len), (1, 70));
    assert_eq!(rx.payload_range(), (12, 70));
    assert_eq!(NetRxToken { idx: 0, len: 4000 }.payload_range(), (12, 2048));
    assert_eq!(NetTxToken.frame_len(60), 72);

    assert_eq!(dev.claim_tx(), Some(0));
    assert_eq!(dev.claim_tx(), Some(1));
    assert_eq!(dev.tx_free, 0xfc);
    dev.tx_free = 0;
    assert!(dev.transmit().is_none());
    // Without a free transmit buffer the frame stays queued.
    assert!(dev.receive().is_none());
    assert_eq!(dev.rx_ready.len(), 1);
    assert_eq!(dev.claim_tx(), None);
    let done = [(1u32, 0u32), (6, 0), (0, 0), (0, 0), (0, 0), (0, 0), (0, 0), (0, 0)];
    dev.collect_tx(2, &done);
    assert_eq!(dev.tx_used_idx, 2);
    assert_eq!(dev.tx_free, 0b0100_0010);
    assert!(dev.transmit().is_some());
    assert_eq!(dev.claim_tx(), Some(1));
}

#[test]
fn block_completions_in_order() {
    let ring = [10u32, 11, 12, 13, 14, 15, 16, 17];
    let mut used = 6u16;
    assert_eq!(collect_completions(&mut used, 9, &ring), vec![16, 17, 10]);
    assert_eq!(used, 9);
    assert_eq!(collect_completions(&mut used, 9, &ring), vec![]);
    let mut wrap = 0xfffeu16;
    assert_eq!(collect_completions(&mut wrap, 1, &ring), vec![16, 17, 10]);
    assert_eq!(wrap, 1);
}

#[test]
fn net_card_bring_up_decisions() {
    assert!(net_probe_ok(0x7472_6976, 2, 1));
    assert!(!net_probe_ok(0x7472_6976, 2, 2));
    assert!(!net_probe_ok(0x7472_6976, 1, 1));
    assert!(!net_probe_ok(0, 2, 1));
    assert_eq!(net_features(0xffff_ffff, 0xffff_ffff), (1 << 5, 1));
    assert_eq!(net_features(0, 0), (0, 0));
    assert!(net_queue_ok(8));
    assert!(!net_queue_ok(7));
    assert_eq!(rx_post_all(0), (vec![0, 1, 2, 3, 4, 5, 6, 7], 8));
    assert_eq!(rx_post_all(3), (vec![5, 6, 7, 0, 1, 2, 3, 4], 11));
    assert_eq!(rx_post_all(0xfffe).1, 6);
}
