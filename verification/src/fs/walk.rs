//! Whole-path resolution (`namei` and its kin) over a snapshot of a
//! device's inodes: from the start directory, component by component,
//! following symlinks up to the hop limit, to the inode a path names or
//! to its parent directory and last name.

use vstd::prelude::*;

use crate::bytes::le16;
use crate::fs::path::{
    dir_step, dirlookup_in, found_step, lookup_at, name_end_from, only_slashes_from, skip_slashes_from, splice_symlink,
    split_first, walk_end, walk_start, FoundAction, StepAction, MAX_SYMLINK_HOPS, ROOTINO, SLASH, T_SYMLINK,
};
use crate::layout::T_DIR;

verus! {

/// An inode as resolution reads it: its type, and its contents (the
/// entries of a directory, the target of a symlink).
pub struct WalkInode {
    pub typ: u16,
    pub data: Vec<u8>,
}

/// The inodes of a device, indexed by inode number: type and contents.
pub open spec fn fs_view(fs: &Vec<WalkInode>) -> Seq<(u16, Seq<u8>)> {
    Seq::new(fs@.len(), |i: int| (fs@[i].typ, fs@[i].data@))
}

/// The inode that directory contents `dir` give for `name`: that of
/// the first live entry with the name, if any.
pub open spec fn dir_lookup_spec(dir: Seq<u8>, name: Seq<u8>) -> Option<int> {
    if exists|k: int| 0 <= k && #[trigger] lookup_at(dir, name, k) && forall|j: int| 0 <= j < k ==> !lookup_at(dir, name, j) {
        let k = choose|k: int|
            0 <= k && #[trigger] lookup_at(dir, name, k) && forall|j: int| 0 <= j < k ==> !lookup_at(dir, name, j);
        Some(le16(dir, 16 * k))
    } else {
        None
    }
}

/// `s[i]` exists and is a UTF-8 continuation byte within `[lo, hi]`.
pub open spec fn cont_in(s: Seq<u8>, i: int, lo: u8, hi: u8) -> bool {
    i < s.len() && lo <= s[i] <= hi
}

/// The bytes of `s` from `i` on are well-formed UTF-8: each sequence is
/// a shortest-form encoding of a scalar value (no surrogates, nothing
/// above U+10FFFF).
pub open spec fn utf8_from(s: Seq<u8>, i: int) -> bool
    decreases s.len() - i,
{
    if i < 0 || i >= s.len() {
        true
    } else {
        let b = s[i];
        if b <= 0x7f {
            utf8_from(s, i + 1)
        } else if 0xc2 <= b <= 0xdf {
            cont_in(s, i + 1, 0x80, 0xbf) && utf8_from(s, i + 2)
        } else if 0xe0 <= b <= 0xef {
            let lo: u8 = if b == 0xe0 { 0xa0 } else { 0x80 };
            let hi: u8 = if b == 0xed { 0x9f } else { 0xbf };
            cont_in(s, i + 1, lo, hi) && cont_in(s, i + 2, 0x80, 0xbf) && utf8_from(s, i + 3)
        } else if 0xf0 <= b <= 0xf4 {
            let lo: u8 = if b == 0xf0 { 0x90 } else { 0x80 };
            let hi: u8 = if b == 0xf4 { 0x8f } else { 0xbf };
            cont_in(s, i + 1, lo, hi) && cont_in(s, i + 2, 0x80, 0xbf) && cont_in(s, i + 3, 0x80, 0xbf) && utf8_from(
                s,
                i + 4,
            )
        } else {
            false
        }
    }
}

/// `s` is well-formed UTF-8 (what a symlink target must be to be read).
pub fn utf8_ok(s: &[u8]) -> (r: bool)
    ensures
        r == utf8_from(s@, 0),
{
    let n: usize = s.len();
    let mut i: usize = 0;
    while i < n
        invariant
            n == s@.len(),
            i <= n,
            utf8_from(s@, 0) == utf8_from(s@, i as int),
        decreases n - i,
    {
        let b: u8 = s[i];
        if b <= 0x7f {
            i = i + 1;
        } else if 0xc2 <= b && b <= 0xdf {
            if !(n - i > 1 && 0x80 <= s[i + 1] && s[i + 1] <= 0xbf) {
                return false;
            }
            i = i + 2;
        } else if 0xe0 <= b && b <= 0xef {
            let lo: u8 = if b == 0xe0 { 0xa0 } else { 0x80 };
            let hi: u8 = if b == 0xed { 0x9f } else { 0xbf };
            if !(n - i > 2 && lo <= s[i + 1] && s[i + 1] <= hi && 0x80 <= s[i + 2] && s[i + 2] <= 0xbf) {
                return false;
            }
            i = i + 3;
        } else if 0xf0 <= b && b <= 0xf4 {
            let lo: u8 = if b == 0xf0 { 0x90 } else { 0x80 };
            let hi: u8 = if b == 0xf4 { 0x8f } else { 0xbf };
            if !(n - i > 3 && lo <= s[i + 1] && s[i + 1] <= hi && 0x80 <= s[i + 2] && s[i + 2] <= 0xbf && 0x80 <= s[i
                + 3] && s[i + 3] <= 0xbf) {
                return false;
            }
            i = i + 4;
        } else {
            return false;
        }
    }
    true
}

/// Where resolution of `path` begins: the root for an absolute path,
/// else `start`.
pub open spec fn start_of(path: Seq<u8>, start: int) -> int {
    if path.len() > 0 && path[0] == SLASH {
        ROOTINO as int
    } else {
        start
    }
}

/// Skipping slashes from `i` stops at or after `i`, on a byte that is
/// no slash or at the end.
pub proof fn lemma_skip_ge(p: Seq<u8>, i: int)
    requires
        0 <= i,
    ensures
        i <= skip_slashes_from(p, i),
        skip_slashes_from(p, i) < p.len() ==> p[skip_slashes_from(p, i)] != SLASH,
    decreases p.len() - i,
{
    if i < p.len() && p[i] == SLASH {
        lemma_skip_ge(p, i + 1);
    }
}

/// A name that starts at `i` ends at or after `i`, within the path.
pub proof fn lemma_name_end_ge(p: Seq<u8>, i: int)
    requires
        0 <= i,
    ensures
        i <= name_end_from(p, i),
        i <= p.len() ==> name_end_from(p, i) <= p.len(),
    decreases p.len() - i,
{
    if i < p.len() && p[i] != SLASH {
        lemma_name_end_ge(p, i + 1);
    }
}

/// What resolving `path` from directory `ip` gives, with `hops`
/// symlinks followed so far: `Some((inum, None))` for the inode it
/// names, `Some((dir, Some(name)))` for its parent directory and last
/// name when `want_parent`, `None` when it fails. Leading slashes are
/// skipped; a component is looked up in the current inode, which must
/// be a directory; a symlink met before the last component, or as the
/// last one when `follow_last`, has its target (1 to 256 bytes of
/// UTF-8) spliced in front of the rest, and resolution goes on from the
/// root (absolute target) or the symlink's directory, up to
/// `MAX_SYMLINK_HOPS` times.
pub open spec fn walk(
    fs: Seq<(u16, Seq<u8>)>,
    ip: int,
    path: Seq<u8>,
    hops: int,
    want_parent: bool,
    follow_last: bool,
) -> Option<(int, Option<Seq<u8>>)>
    decreases (if hops < 40 {
        40 - hops
    } else {
        0
    }), path.len(),
{
    let s = skip_slashes_from(path, 0);
    if s >= path.len() {
        if want_parent {
            None
        } else {
            Some((ip, None))
        }
    } else {
        proof {
            lemma_skip_ge(path, 0);
            lemma_name_end_ge(path, s);
        }
        let e = name_end_from(path, s);
        let name = path.subrange(s, e);
        let ri = if e < path.len() {
            e + 1
        } else {
            e
        };
        let rest = path.subrange(ri, path.len() as int);
        let is_last = forall|j: int| ri <= j < path.len() ==> path[j] == SLASH;
        if !(0 <= ip < fs.len()) || fs[ip].0 != T_DIR {
            None
        } else if want_parent && is_last {
            Some((ip, Some(name)))
        } else {
            match dir_lookup_spec(fs[ip].1, name) {
                None => None,
                Some(next) => if !(0 <= next < fs.len()) {
                    None
                } else if fs[next].0 == T_SYMLINK && (!is_last || follow_last) {
                    if hops + 1 > MAX_SYMLINK_HOPS {
                        None
                    } else {
                        let target = fs[next].1;
                        if target.len() == 0 || target.len() > 256 || !utf8_from(target, 0) {
                            None
                        } else {
                            let np = if rest.len() == 0 {
                                target
                            } else {
                                target + seq![SLASH] + rest
                            };
                            walk(fs, start_of(np, ip), np, hops + 1, want_parent, follow_last)
                        }
                    }
                } else {
                    walk(fs, next, rest, hops, want_parent, follow_last)
                },
            }
        }
    }
}

/// `r` is the executable form of the walk's result `w`.
pub open spec fn walk_result_is(r: Option<(u32, Option<Vec<u8>>)>, w: Option<(int, Option<Seq<u8>>)>) -> bool {
    match (w, r) {
        (None, None) => true,
        (Some((ip, None)), Some((i, None))) => i == ip,
        (Some((ip, Some(name))), Some((i, Some(v)))) => i == ip && v@ == name,
        _ => false,
    }
}

/// `dirlookup_in`'s answer is `dir_lookup_spec`.
proof fn lemma_dir_lookup(dir: Seq<u8>, name: Seq<u8>, r: Option<u16>)
    requires
        match r {
            Some(inum) => exists|k: int|
                0 <= k && #[trigger] lookup_at(dir, name, k) && inum == le16(dir, 16 * k) && forall|j: int|
                    0 <= j < k ==> !#[trigger] lookup_at(dir, name, j),
            None => forall|k: int| 0 <= k ==> !#[trigger] lookup_at(dir, name, k),
        },
    ensures
        match r {
            Some(inum) => dir_lookup_spec(dir, name) == Some(inum as int),
            None => dir_lookup_spec(dir, name) is None,
        },
{
    match r {
        Some(inum) => {
            let k = choose|k: int|
                0 <= k && #[trigger] lookup_at(dir, name, k) && inum == le16(dir, 16 * k) && forall|j: int|
                    0 <= j < k ==> !#[trigger] lookup_at(dir, name, j);
            assert(0 <= k && lookup_at(dir, name, k) && forall|j: int| 0 <= j < k ==> !lookup_at(dir, name, j));
            let k2 = choose|k: int|
                0 <= k && #[trigger] lookup_at(dir, name, k) && forall|j: int| 0 <= j < k ==> !lookup_at(dir, name, j);
            if k2 < k {
                assert(!lookup_at(dir, name, k2));
            } else if k < k2 {
                assert(!lookup_at(dir, name, k));
            }
        },
        None => {
            if exists|k: int| 0 <= k && #[trigger] lookup_at(dir, name, k) && forall|j: int| 0 <= j < k ==> !lookup_at(dir, name, j) {
                let k = choose|k: int|
                    0 <= k && #[trigger] lookup_at(dir, name, k) && forall|j: int| 0 <= j < k ==> !lookup_at(dir, name, j);
                assert(!lookup_at(dir, name, k));
            }
        },
    }
}

/// Resolves `path` from directory `start` over the inodes `fs` (inode
/// number = index): the inode it names, or with `want_parent` the
/// parent directory and the last name; `follow_last` says whether a
/// symlink as the last component is followed. Exactly `walk` from
/// `start_of(path, start)` with no hop taken.
pub fn resolve(fs: &Vec<WalkInode>, start: u32, path: &[u8], want_parent: bool, follow_last: bool) -> (r: Option<
    (u32, Option<Vec<u8>>),
>)
    ensures
        walk_result_is(r, walk(fs_view(fs), start_of(path@, start as int), path@, 0, want_parent, follow_last)),
{
    let ghost fsv = fs_view(fs);
    let ghost goal = walk(fsv, start_of(path@, start as int), path@, 0, want_parent, follow_last);
    let mut ip: u32 = walk_start(path, start);
    let mut cur: Vec<u8> = vstd::slice::slice_to_vec(path);
    let mut hops: u32 = 0;
    loop
        invariant
            fsv == fs_view(fs),
            goal == walk(fs_view(fs), start_of(path@, start as int), path@, 0, want_parent, follow_last),
            hops <= MAX_SYMLINK_HOPS,
            walk(fsv, ip as int, cur@, hops as int, want_parent, follow_last) == goal,
        decreases MAX_SYMLINK_HOPS - hops, cur@.len(),
    {
        let ghost before = cur@;
        let ghost hops0 = hops;
        match split_first(cur.as_slice()) {
            None => {
                return match walk_end(ip, want_parent) {
                    None => None,
                    Some(i) => Some((i, None)),
                };
            },
            Some((s, e, ri)) => {
                proof {
                    lemma_skip_ge(before, 0);
                    lemma_name_end_ge(before, s as int);
                }
                let is_last = only_slashes_from(cur.as_slice(), ri);
                if ip as usize >= fs.len() {
                    return None;
                }
                let typ: u16 = fs[ip as usize].typ;
                match dir_step(typ, want_parent, is_last) {
                    StepAction::NotDir => {
                        return None;
                    },
                    StepAction::Parent => {
                        let name = vstd::slice::slice_to_vec(vstd::slice::slice_subrange(cur.as_slice(), s, e));
                        return Some((ip, Some(name)));
                    },
                    StepAction::Lookup => {},
                }
                let name = vstd::slice::slice_subrange(cur.as_slice(), s, e);
                let found = dirlookup_in(fs[ip as usize].data.as_slice(), name);
                proof {
                    lemma_dir_lookup(fs@[ip as int].data@, name@, found);
                }
                let next: u16 = match found {
                    None => {
                        return None;
                    },
                    Some(n) => n,
                };
                if next as usize >= fs.len() {
                    return None;
                }
                let next_typ: u16 = fs[next as usize].typ;
                match found_step(next_typ, is_last, follow_last, &mut hops) {
                    FoundAction::TooManyHops => {
                        return None;
                    },
                    FoundAction::Follow => {
                        let target: &[u8] = fs[next as usize].data.as_slice();
                        if target.len() == 0 || target.len() > 256 || !utf8_ok(target) {
                            return None;
                        }
                        let rest = vstd::slice::slice_subrange(cur.as_slice(), ri, cur.len());
                        let np = splice_symlink(target, rest);
                        ip = walk_start(np.as_slice(), ip);
                        cur = np;
                    },
                    FoundAction::Descend => {
                        cur = vstd::slice::slice_to_vec(vstd::slice::slice_subrange(cur.as_slice(), ri, cur.len()));
                        ip = next as u32;
                    },
                }
            },
        }
    }
}

/// The inode that `path` names from directory `start`, following a
/// symlink in last position.
pub fn namei_from(fs: &Vec<WalkInode>, start: u32, path: &[u8]) -> (r: Option<u32>)
    ensures
        match walk(fs_view(fs), start_of(path@, start as int), path@, 0, false, true) {
            Some((ip, _)) => r == Some(ip as u32),
            None => r is None,
        },
{
    match resolve(fs, start, path, false, true) {
        Some((ip, _)) => Some(ip),
        None => None,
    }
}

/// The inode that `path` names from the root directory.
pub fn namei(fs: &Vec<WalkInode>, path: &[u8]) -> (r: Option<u32>)
    ensures
        match walk(fs_view(fs), start_of(path@, ROOTINO as int), path@, 0, false, true) {
            Some((ip, _)) => r == Some(ip as u32),
            None => r is None,
        },
{
    namei_from(fs, ROOTINO, path)
}

/// Like `namei_from`, but a symlink in last position is returned itself.
pub fn namei_nofollow(fs: &Vec<WalkInode>, start: u32, path: &[u8]) -> (r: Option<u32>)
    ensures
        match walk(fs_view(fs), start_of(path@, start as int), path@, 0, false, false) {
            Some((ip, _)) => r == Some(ip as u32),
            None => r is None,
        },
{
    match resolve(fs, start, path, false, false) {
        Some((ip, _)) => Some(ip),
        None => None,
    }
}

/// The parent directory of what `path` names from `start`, and the last
/// name; `None` when the path has no last name or does not resolve.
pub fn nameiparent_from(fs: &Vec<WalkInode>, start: u32, path: &[u8]) -> (r: Option<(u32, Vec<u8>)>)
    ensures
        match walk(fs_view(fs), start_of(path@, start as int), path@, 0, true, true) {
            Some((ip, Some(name))) => r matches Some((d, n)) && d == ip && n@ == name,
            _ => r is None,
        },
{
    match resolve(fs, start, path, true, true) {
        Some((ip, Some(name))) => Some((ip, name)),
        _ => None,
    }
}

/// `nameiparent_from` from the root directory.
pub fn nameiparent(fs: &Vec<WalkInode>, path: &[u8]) -> (r: Option<(u32, Vec<u8>)>)
    ensures
        match walk(fs_view(fs), start_of(path@, ROOTINO as int), path@, 0, true, true) {
            Some((ip, Some(name))) => r matches Some((d, n)) && d == ip && n@ == name,
            _ => r is None,
        },
{
    nameiparent_from(fs, ROOTINO, path)
}

/// An absolute path resolves the same from every start directory.
pub proof fn law_absolute_path_ignores_start(
    fs: Seq<(u16, Seq<u8>)>,
    path: Seq<u8>,
    s1: int,
    s2: int,
    want_parent: bool,
    follow_last: bool,
)
    requires
        path.len() > 0,
        path[0] == SLASH,
    ensures
        walk(fs, start_of(path, s1), path, 0, want_parent, follow_last) == walk(
            fs,
            start_of(path, s2),
            path,
            0,
            want_parent,
            follow_last,
        ),
        start_of(path, s1) == ROOTINO,
{
}

proof fn lemma_all_slashes(p: Seq<u8>, i: int)
    requires
        0 <= i,
        forall|j: int| i <= j < p.len() ==> p[j] == SLASH,
    ensures
        skip_slashes_from(p, i) >= p.len(),
    decreases p.len() - i,
{
    if i < p.len() {
        lemma_all_slashes(p, i + 1);
    }
}

/// A path made of slashes only names the root directory (and has no
/// last name to stop before); the empty path names the start directory.
pub proof fn law_slashes_and_empty(fs: Seq<(u16, Seq<u8>)>, path: Seq<u8>, start: int, follow_last: bool)
    requires
        path.len() > 0,
        forall|j: int| 0 <= j < path.len() ==> path[j] == SLASH,
    ensures
        walk(fs, start_of(path, start), path, 0, false, follow_last) == Some((ROOTINO as int, None::<Seq<u8>>)),
        walk(fs, start_of(path, start), path, 0, true, follow_last) is None,
        walk(fs, start_of(Seq::empty(), start), Seq::empty(), 0, false, follow_last) == Some((start, None::<Seq<u8>>)),
{
    lemma_all_slashes(path, 0);
}

proof fn lemma_no_slash_end(p: Seq<u8>, i: int)
    requires
        0 <= i <= p.len(),
        forall|j: int| i <= j < p.len() ==> p[j] != SLASH,
    ensures
        name_end_from(p, i) == p.len(),
    decreases p.len() - i,
{
    if i < p.len() {
        lemma_no_slash_end(p, i + 1);
    }
}

/// A single name that the directory `ip` lacks does not resolve, nor
/// does one looked up in an inode that is no directory.
pub proof fn law_missing_name_fails(fs: Seq<(u16, Seq<u8>)>, ip: int, name: Seq<u8>, hops: int, follow_last: bool)
    requires
        name.len() > 0,
        forall|j: int| 0 <= j < name.len() ==> name[j] != SLASH,
        !(0 <= ip < fs.len() && fs[ip].0 == T_DIR) || dir_lookup_spec(fs[ip].1, name) is None,
    ensures
        walk(fs, ip, name, hops, false, follow_last) is None,
{
    lemma_no_slash_end(name, 0);
    assert(name.subrange(0, name.len() as int) =~= name);
}

/// Resolution standing on an inode that is no directory fails as soon
/// as the path still holds a component.
pub proof fn law_not_a_directory_fails(
    fs: Seq<(u16, Seq<u8>)>,
    ip: int,
    path: Seq<u8>,
    hops: int,
    want_parent: bool,
    follow_last: bool,
)
    requires
        !(0 <= ip < fs.len() && fs[ip].0 == T_DIR),
        exists|j: int| 0 <= j < path.len() && path[j] != SLASH,
    ensures
        walk(fs, ip, path, hops, want_parent, follow_last) is None,
{
    if skip_slashes_from(path, 0) >= path.len() {
        lemma_all_slashes_back(path, 0);
    }
}

proof fn lemma_all_slashes_back(p: Seq<u8>, i: int)
    requires
        0 <= i,
        skip_slashes_from(p, i) >= p.len(),
    ensures
        forall|j: int| i <= j < p.len() ==> p[j] == SLASH,
    decreases p.len() - i,
{
    if i < p.len() {
        lemma_all_slashes_back(p, i + 1);
    }
}

/// A symlink whose target is its own name, in the directory it is
/// looked up from, never resolves: after `MAX_SYMLINK_HOPS` hops the
/// walk gives up.
pub proof fn law_symlink_loop_fails(fs: Seq<(u16, Seq<u8>)>, dir: int, link: int, name: Seq<u8>, hops: int)
    requires
        0 <= hops <= MAX_SYMLINK_HOPS,
        0 <= dir < fs.len(),
        fs[dir].0 == T_DIR,
        0 < name.len() <= 256,
        utf8_from(name, 0),
        forall|j: int| 0 <= j < name.len() ==> name[j] != SLASH,
        dir_lookup_spec(fs[dir].1, name) == Some(link),
        0 <= link < fs.len(),
        fs[link] == (T_SYMLINK, name),
    ensures
        walk(fs, dir, name, hops, false, true) is None,
    decreases MAX_SYMLINK_HOPS - hops,
{
    lemma_no_slash_end(name, 0);
    assert(name.subrange(0, name.len() as int) =~= name);
    assert(name.subrange(name.len() as int, name.len() as int).len() == 0);
    if hops + 1 <= MAX_SYMLINK_HOPS {
        law_symlink_loop_fails(fs, dir, link, name, hops + 1);
    }
}

} // verus!
