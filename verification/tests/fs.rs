use xv6_kernel::fs::walk::{namei, namei_from, namei_nofollow, nameiparent, nameiparent_from, resolve, utf8_ok, WalkInode};
use xv6_kernel::fs::bmap::{bitmap_claim, bitmap_release, itrunc_plan, scan_limit};
use xv6_kernel::fs::inode::{bmap_ref, chunk_plan, iget, init_cache, readi_limit, writei_limit, BlockRef, Chunk, InodeCache};
use xv6_kernel::fs::log::{install_plan, log_write, read_log_header, write_log_header, LogHeader, LogState};
use xv6_kernel::fs::path::{
    create_name_ok, walk_end, walk_start, ROOTINO, create_reuses_existing, unlink_plan, UnlinkPlan, cwd_path, dir_is_empty_in, dir_step, dirlink_slot, dirlookup_in, unlink_dirent_in, found_step, only_slashes_from, splice_symlink, split_first, FoundAction,
    StepAction, MAX_SYMLINK_HOPS, T_SYMLINK,
};
use xv6_kernel::layout::{
    default_mode, dirent_name_matches, iblock, ialloc_try, mkfs_superblock, DInode, Dirent, Superblock, BPB, BSIZE, FSMAGIC, T_DIR, T_FILE,
};

fn block() -> Vec<u8> {
    vec![0u8; BSIZE]
}

#[test]
fn bitmap_claims_lowest_free_bit() {
    let mut b = block();
    b[0] = 0b0000_0111;
    assert_eq!(bitmap_claim(&mut b, BPB), Some(3));
    assert_eq!(b[0], 0b0000_1111);
    assert_eq!(bitmap_claim(&mut b, BPB), Some(4));
}

#[test]
fn bitmap_claim_respects_limit() {
    let mut b = block();
    b[0] = 0xff;
    assert_eq!(bitmap_claim(&mut b, 8), None);
    assert_eq!(b[0], 0xff);
    assert_eq!(bitmap_claim(&mut b, 9), Some(8));
    assert_eq!(b[1], 1);
}

#[test]
fn bitmap_claim_release_restores_block() {
    let mut b = block();
    b[0] = 0b1111_1011;
    b[2] = 0b1010_1010;
    let before = b.clone();
    let bi = bitmap_claim(&mut b, BPB).unwrap();
    assert_eq!(bi, 2);
    assert_eq!(b[0], 0xff);
    bitmap_release(&mut b, bi);
    assert_eq!(b, before);
}

#[test]
fn bitmap_release_clears_one_bit() {
    let mut b = block();
    b[5] = 0xff;
    bitmap_release(&mut b, 42);
    assert_eq!(b[5], 0xfb);
    assert!(b.iter().enumerate().all(|(i, &x)| i == 5 || x == 0));
}

#[test]
fn scan_limit_last_group() {
    assert_eq!(scan_limit(10_000, 0), BPB);
    assert_eq!(scan_limit(10_000, 8192), 10_000 - 8192);
    assert_eq!(scan_limit(5, 4), 1);
}

#[test]
fn readi_and_writei_limits() {
    assert_eq!(readi_limit(100, 100, 10), 0);
    assert_eq!(readi_limit(100, 150, 10), 0);
    assert_eq!(readi_limit(100, 90, 64), 10);
    assert_eq!(readi_limit(100, 10, 64), 64);
    let max = 140 * 512;
    assert_eq!(writei_limit(max, 1), 0);
    assert_eq!(writei_limit(max - 5, 100), 5);
    assert_eq!(writei_limit(0, 100), 100);
}

#[test]
fn chunk_plan_splits_at_blocks() {
    let v = chunk_plan(500, 600);
    assert_eq!(
        v,
        vec![
            Chunk { bn: 0, block_off: 500, len: 12 },
            Chunk { bn: 1, block_off: 0, len: 512 },
            Chunk { bn: 2, block_off: 0, len: 76 },
        ]
    );
    assert_eq!(chunk_plan(1024, 0), vec![]);
    assert_eq!(chunk_plan(1024, 512), vec![Chunk { bn: 2, block_off: 0, len: 512 }]);
}

#[test]
fn bmap_ref_direct_indirect_toobig() {
    let mut addrs = [0u32; 13];
    for i in 0..13 {
        addrs[i] = 100 + i as u32;
    }
    assert_eq!(bmap_ref(&addrs, 0), BlockRef::Direct(100));
    assert_eq!(bmap_ref(&addrs, 11), BlockRef::Direct(111));
    assert_eq!(bmap_ref(&addrs, 12), BlockRef::Indirect { ind: 112, idx: 0 });
    assert_eq!(bmap_ref(&addrs, 139), BlockRef::Indirect { ind: 112, idx: 127 });
    assert_eq!(bmap_ref(&addrs, 140), BlockRef::TooBig);
}

#[test]
fn itrunc_plan_lists_blocks_to_free() {
    let mut addrs = [0u32; 13];
    addrs[0] = 50;
    addrs[3] = 51;
    let ind = block();
    assert_eq!(itrunc_plan(&addrs, &ind), vec![50, 51]);
    addrs[12] = 60;
    let mut ind = block();
    ind[0..4].copy_from_slice(&70u32.to_le_bytes());
    ind[8..12].copy_from_slice(&71u32.to_le_bytes());
    assert_eq!(itrunc_plan(&addrs, &ind), vec![50, 51, 70, 71, 60]);
}

#[test]
fn inode_cache_shares_live_slot() {
    let mut c = InodeCache::new();
    init_cache(&mut c);
    let a = iget(&mut c, 1, 7);
    let b = iget(&mut c, 1, 7);
    assert_eq!(a, b);
    let d = iget(&mut c, 1, 8);
    assert_ne!(a, d);
    assert_eq!(c.slots[a].holders, 2);
    assert_eq!(c.slots[d].inum, 8);
    assert!(!c.slots[d].valid);
}

#[test]
fn log_absorbs_repeated_writes() {
    let mut log = LogState::zero();
    log.init(2, 30);
    assert!(log.try_begin_op());
    assert!(log_write(&mut log, 45));
    assert!(log_write(&mut log, 46));
    assert!(!log_write(&mut log, 45));
    assert_eq!(log.lh.n, 2);
    assert_eq!(&log.lh.block[..2], &[45, 46]);
    assert!(log.end_op());
    assert!(log.committing);
    assert_eq!(install_plan(log.start, &log.lh), vec![(3, 45), (4, 46)]);
    log.finish_commit();
    assert_eq!(log.lh.n, 0);
    assert!(!log.committing);
}

#[test]
fn log_admission_control() {
    let mut log = LogState::zero();
    log.init(2, 30);
    assert!(log.try_begin_op());
    assert!(log.try_begin_op());
    assert!(log.try_begin_op());
    // A fourth operation could overflow the 30-block log.
    assert!(!log.try_begin_op());
    assert_eq!(log.outstanding, 3);
    assert!(!log.end_op());
    assert!(!log.end_op());
    assert!(log.end_op());
    assert!(!log.try_begin_op());
    assert!(!log.commit_wait_ready());
    log.finish_commit();
    assert!(log.commit_wait_ready());
}

#[test]
fn log_header_roundtrip() {
    let mut lh = LogHeader::zero();
    lh.n = 3;
    lh.block[0] = 10;
    lh.block[1] = 0x0102_0304;
    lh.block[2] = 99;
    let b = write_log_header(&lh);
    assert_eq!(b.len(), 512);
    assert_eq!(&b[0..8], &[3, 0, 0, 0, 10, 0, 0, 0]);
    assert_eq!(&b[8..12], &[4, 3, 2, 1]);
    assert!(b[16..].iter().all(|&x| x == 0));
    let back = read_log_header(&b);
    assert_eq!(back.n, 3);
    assert_eq!(&back.block[..3], &lh.block[..3]);
}

#[test]
fn path_components() {
    let p = b"//usr/bin/";
    assert_eq!(split_first(p), Some((2, 5, 6)));
    assert_eq!(split_first(b"bin"), Some((0, 3, 3)));
    assert_eq!(split_first(b"///"), None);
    assert_eq!(split_first(b""), None);
    assert!(only_slashes_from(b"a//", 1));
    assert!(!only_slashes_from(b"a/b", 1));
}

#[test]
fn symlink_splice() {
    assert_eq!(splice_symlink(b"/etc", b"passwd"), b"/etc/passwd".to_vec());
    assert_eq!(splice_symlink(b"/etc", b""), b"/etc".to_vec());
}

#[test]
fn resolution_steps() {
    assert_eq!(dir_step(T_FILE, false, false), StepAction::NotDir);
    assert_eq!(dir_step(T_DIR, true, true), StepAction::Parent);
    assert_eq!(dir_step(T_DIR, true, false), StepAction::Lookup);
    let mut hops = 0u32;
    assert_eq!(found_step(T_FILE, true, true, &mut hops), FoundAction::Descend);
    assert_eq!(hops, 0);
    assert_eq!(found_step(T_SYMLINK, true, false, &mut hops), FoundAction::Descend);
    assert_eq!(found_step(T_SYMLINK, false, false, &mut hops), FoundAction::Follow);
    assert_eq!(hops, 1);
    let mut hops = MAX_SYMLINK_HOPS;
    assert_eq!(found_step(T_SYMLINK, true, true, &mut hops), FoundAction::TooManyHops);
    assert_eq!(hops, MAX_SYMLINK_HOPS + 1);
}

fn dirent_bytes(inum: u16, name: &[u8]) -> Vec<u8> {
    let mut v = vec![0u8; 16];
    v[0..2].copy_from_slice(&inum.to_le_bytes());
    v[2..2 + name.len()].copy_from_slice(name);
    v
}

#[test]
fn directory_lookup() {
    let mut dir = Vec::new();
    dir.extend(dirent_bytes(1, b"."));
    dir.extend(dirent_bytes(0, b"gone"));
    dir.extend(dirent_bytes(5, b"hello"));
    dir.extend(dirent_bytes(6, b"abcdefghijklmn"));
    assert_eq!(dirlookup_in(&dir, b"."), Some(1));
    assert_eq!(dirlookup_in(&dir, b"gone"), None);
    assert_eq!(dirlookup_in(&dir, b"hello"), Some(5));
    assert_eq!(dirlookup_in(&dir, b"hell"), None);
    assert_eq!(dirlookup_in(&dir, b"abcdefghijklmn"), Some(6));
    assert_eq!(dirlookup_in(&dir, b"abcdefghijklmno"), None);
    // A trailing partial entry is not scanned.
    let mut short = dirent_bytes(9, b"x");
    short.truncate(10);
    assert_eq!(dirlookup_in(&short, b"x"), None);
}

#[test]
fn dirent_roundtrip_and_match() {
    let d = Dirent::with_name(12, b"notes");
    assert_eq!(d.name_len(), 5);
    assert!(dirent_name_matches(&d, b"notes"));
    assert!(!dirent_name_matches(&d, b"note"));
    let mut b = vec![0xaau8; 32];
    d.encode(&mut b, 16);
    assert_eq!(&b[0..16], &[0xaa; 16]);
    assert_eq!(&b[16..18], &[12, 0]);
    let back = Dirent::decode(&b, 16);
    assert_eq!(back.inum, 12);
    assert_eq!(back.name, d.name);
    let full = Dirent::with_name(3, b"abcdefghijklmnopq");
    assert_eq!(full.name_len(), 14);
}

#[test]
fn superblock_roundtrip() {
    let sb = Superblock {
        magic: FSMAGIC,
        size: 2000,
        nblocks: 1941,
        ninodes: 200,
        nlog: 30,
        logstart: 2,
        inodestart: 32,
        bmapstart: 58,
    };
    let mut b = block();
    sb.encode(&mut b);
    assert_eq!(&b[0..4], &[0x40, 0x30, 0x20, 0x10]);
    assert_eq!(Superblock::decode(&b), sb);
    assert_eq!(iblock(0, &sb), 32);
    assert_eq!(iblock(9, &sb), 34);
}

#[test]
fn dinode_roundtrip() {
    let mut d = DInode::empty();
    d.typ = T_FILE;
    d.nlink = 2;
    d.size = 1234;
    d.addrs[0] = 77;
    d.addrs[12] = 88;
    let mut b = vec![0xffu8; BSIZE];
    d.encode(&mut b, 128);
    assert_eq!(&b[0..128], &[0xff; 128][..]);
    assert_eq!(&b[128..130], &[2, 0]);
    assert!(b[128 + 84..256].iter().all(|&x| x == 0));
    let back = DInode::decode(&b, 128);
    assert_eq!(back.typ, T_FILE);
    assert_eq!(back.nlink, 2);
    assert_eq!(back.size, 1234);
    assert_eq!(back.addrs, d.addrs);
}

#[test]
fn ialloc_claims_only_free_inode() {
    let mut b = block();
    // Inode 5 sits at offset 128 of its block (4 per block).
    b[128] = 1;
    let before = b.clone();
    assert!(!ialloc_try(&mut b, 5, T_DIR));
    assert_eq!(b, before);
    assert!(ialloc_try(&mut b, 6, T_DIR));
    let d = DInode::decode(&b, 256);
    assert_eq!(d.typ, T_DIR);
    assert_eq!(d.nlink, 1);
    assert_eq!(d.size, 0);
    assert_eq!(&b[..256], &before[..256]);
}

#[test]
fn cwd_path_from_leaf_first_names() {
    assert_eq!(cwd_path(&vec![]), b"/".to_vec());
    let parts = vec![b"c".to_vec(), b"bb".to_vec(), b"a".to_vec()];
    assert_eq!(cwd_path(&parts), b"/a/bb/c".to_vec());
}

#[test]
fn directory_entry_updates() {
    let mut dir = Vec::new();
    dir.extend(dirent_bytes(1, b"."));
    dir.extend(dirent_bytes(1, b".."));
    dir.extend(dirent_bytes(0, b"old"));
    dir.extend(dirent_bytes(7, b"a"));
    dir.extend(dirent_bytes(8, b"b"));
    assert_eq!(dirlink_slot(&dir), 32);
    assert!(!dir_is_empty_in(&dir));
    let before = dir.clone();
    assert!(!unlink_dirent_in(&mut dir, b"zz"));
    assert_eq!(dir, before);
    assert!(unlink_dirent_in(&mut dir, b"a"));
    assert_eq!(&dir[48..64], &[0u8; 16]);
    assert_eq!(&dir[..48], &before[..48]);
    assert_eq!(&dir[64..], &before[64..]);
    assert_eq!(dirlookup_in(&dir, b"a"), None);
    assert!(unlink_dirent_in(&mut dir, b"b"));
    assert!(dir_is_empty_in(&dir));
    let full: Vec<u8> = [dirent_bytes(1, b"."), dirent_bytes(1, b"..")].concat();
    assert_eq!(dirlink_slot(&full), 32);
    let mut ragged = full.clone();
    ragged.extend([5u8; 7]);
    assert_eq!(dirlink_slot(&ragged), 32);
    assert!(create_reuses_existing(T_FILE, T_FILE));
    assert!(create_reuses_existing(T_FILE, 3));
    assert!(!create_reuses_existing(T_FILE, T_DIR));
    assert!(!create_reuses_existing(T_DIR, T_FILE));
}

#[test]
fn image_layout() {
    let sb = mkfs_superblock();
    assert_eq!(sb.magic, FSMAGIC);
    assert_eq!(sb.size, 2048);
    assert_eq!(sb.logstart, 2);
    assert_eq!(sb.nlog, 30);
    assert_eq!(sb.inodestart, 33);
    assert_eq!(sb.bmapstart, 83);
    assert_eq!(sb.nblocks, 2048 - 84);
    assert_eq!(sb.ninodes, 200);
    assert_eq!(default_mode(T_DIR), 0o755);
    assert_eq!(default_mode(T_FILE), 0o644);
    assert_eq!(default_mode(3), 0o666);
    assert_eq!(default_mode(9), 0o644);
}

#[test]
fn superblock_cache_holds_block_one() {
    let sb = mkfs_superblock();
    let mut b = block();
    sb.encode(&mut b);
    let mut cache = Superblock::zero();
    assert_eq!(xv6_kernel::fs::superblock::get(&cache).magic, 0);
    xv6_kernel::fs::superblock::init(&mut cache, &b);
    assert_eq!(xv6_kernel::fs::superblock::get(&cache), sb);
}

#[test]
fn create_names_and_unlink_counts() {
    assert!(create_name_ok(b"a"));
    assert!(create_name_ok(b"..."));
    assert!(create_name_ok(b"abcdefghijklmn"));
    assert!(!create_name_ok(b""));
    assert!(!create_name_ok(b"."));
    assert!(!create_name_ok(b".."));
    assert!(!create_name_ok(b"abcdefghijklmno"));
    // A file with one link and no other holder goes away.
    assert_eq!(
        unlink_plan(T_FILE, false, 3, 1, 2),
        Some(UnlinkPlan { parent_nlink: 3, child_nlink: 0, free_child: true })
    );
    // Still open elsewhere: the inode stays until the last holder lets go.
    assert_eq!(
        unlink_plan(T_FILE, false, 3, 1, 3),
        Some(UnlinkPlan { parent_nlink: 3, child_nlink: 0, free_child: false })
    );
    assert_eq!(
        unlink_plan(T_FILE, false, 3, 2, 2),
        Some(UnlinkPlan { parent_nlink: 3, child_nlink: 1, free_child: false })
    );
    // An empty directory takes its parent's `..` link with it.
    assert_eq!(
        unlink_plan(T_DIR, true, 3, 1, 2),
        Some(UnlinkPlan { parent_nlink: 2, child_nlink: 0, free_child: true })
    );
    assert_eq!(unlink_plan(T_DIR, false, 3, 1, 2), None);
}

#[test]
fn walk_start_and_end() {
    assert_eq!(walk_start(b"/a/b", 9), ROOTINO);
    assert_eq!(walk_start(b"a/b", 9), 9);
    assert_eq!(walk_start(b"", 9), 9);
    assert_eq!(walk_end(5, false), Some(5));
    assert_eq!(walk_end(5, true), None);
}

fn dir_of(entries: &[(u16, &str)]) -> Vec<u8> {
    let mut d = Vec::new();
    for (inum, name) in entries {
        let mut e = vec![0u8; 16];
        e[0..2].copy_from_slice(&inum.to_le_bytes());
        e[2..2 + name.len()].copy_from_slice(name.as_bytes());
        d.extend_from_slice(&e);
    }
    d
}

fn walk_fs() -> Vec<WalkInode> {
    vec![
        WalkInode { typ: 0, data: vec![] },
        // 1: the root: a (dir), l -> "a", loop -> "loop", abs -> "/a".
        WalkInode { typ: 1, data: dir_of(&[(1, "."), (2, "a"), (3, "l"), (4, "loop"), (6, "abs")]) },
        WalkInode { typ: 1, data: dir_of(&[(2, "."), (1, ".."), (5, "f")]) },
        WalkInode { typ: 4, data: b"a".to_vec() },
        WalkInode { typ: 4, data: b"loop".to_vec() },
        WalkInode { typ: 2, data: b"hello".to_vec() },
        WalkInode { typ: 4, data: b"/a".to_vec() },
    ]
}

#[test]
fn resolve_walks_whole_paths() {
    let fs = walk_fs();
    assert_eq!(resolve(&fs, 1, b"/a/f", false, true), Some((5, None)));
    assert_eq!(resolve(&fs, 2, b"f", false, true), Some((5, None)));
    assert_eq!(resolve(&fs, 2, b"//a///f", false, true), Some((5, None)));
    assert_eq!(resolve(&fs, 2, b"../a/./f", false, true), Some((5, None)));
    // Absolute paths ignore the start; slashes alone name the root.
    assert_eq!(resolve(&fs, 9, b"/a", false, true), Some((2, None)));
    assert_eq!(resolve(&fs, 2, b"///", false, true), Some((1, None)));
    assert_eq!(resolve(&fs, 2, b"", false, true), Some((2, None)));
    // Failures: missing name, a file used as a directory.
    assert_eq!(resolve(&fs, 1, b"/missing", false, true), None);
    assert_eq!(resolve(&fs, 1, b"/a/f/x", false, true), None);
    // Parent lookups.
    assert_eq!(resolve(&fs, 1, b"/a/new", true, true), Some((2, Some(b"new".to_vec()))));
    assert_eq!(resolve(&fs, 1, b"/", true, true), None);
}

#[test]
fn resolve_follows_symlinks() {
    let fs = walk_fs();
    assert_eq!(resolve(&fs, 1, b"/l/f", false, true), Some((5, None)));
    assert_eq!(resolve(&fs, 1, b"/l", false, true), Some((2, None)));
    // Not following the last component gives the link itself.
    assert_eq!(resolve(&fs, 1, b"/l", false, false), Some((3, None)));
    assert_eq!(resolve(&fs, 2, b"/abs/f", false, true), Some((5, None)));
    // A link to itself runs out of hops.
    assert_eq!(resolve(&fs, 1, b"/loop", false, true), None);
    assert_eq!(resolve(&fs, 1, b"/loop", false, false), Some((4, None)));
}

#[test]
fn symlink_targets_must_be_utf8() {
    assert!(utf8_ok(b"plain/ascii"));
    assert!(utf8_ok("d\u{e9}j\u{e0}/\u{1F600}".as_bytes()));
    assert!(!utf8_ok(&[0xff]));
    assert!(!utf8_ok(&[0xc3]));
    assert!(!utf8_ok(&[0xed, 0xa0, 0x80]));
    assert!(!utf8_ok(&[0xc0, 0xaf]));
    let mut fs = walk_fs();
    fs[3].data = vec![0xff];
    assert_eq!(resolve(&fs, 1, b"/l/f", false, true), None);
    assert_eq!(resolve(&fs, 1, b"/l", false, false), Some((3, None)));
}

#[test]
fn namei_entry_points() {
    let fs = walk_fs();
    assert_eq!(namei(&fs, b"/a/f"), Some(5));
    assert_eq!(namei(&fs, b"a/f"), Some(5));
    assert_eq!(namei_from(&fs, 2, b"f"), Some(5));
    assert_eq!(namei_from(&fs, 2, b"nope"), None);
    assert_eq!(namei_nofollow(&fs, 1, b"l"), Some(3));
    assert_eq!(namei_from(&fs, 1, b"l"), Some(2));
    assert_eq!(nameiparent(&fs, b"/a/f"), Some((2, b"f".to_vec())));
    assert_eq!(nameiparent_from(&fs, 2, b"x"), Some((2, b"x".to_vec())));
    assert_eq!(nameiparent(&fs, b"/"), None);
}
