//! Path-name resolution steps: splitting off the next component,
//! directory lookup over a directory's entries, and symlink splicing.
//! The caller walks the inodes (locking and reading them); these
//! functions decide each step.

use vstd::prelude::*;

use crate::layout::{dirent_name_matches, dirent_name_matches_spec, Dirent, DIRSIZ, T_DEVICE, T_DIR, T_FILE};

verus! {

/// Symlink hops allowed in one resolution.
pub const MAX_SYMLINK_HOPS: u32 = 40;
/// Type of a symbolic-link inode.
pub const T_SYMLINK: u16 = 4;

pub const SLASH: u8 = 47;

/// First index at or after `i` that holds no slash, or the end of `p`.
pub open spec fn skip_slashes_from(p: Seq<u8>, i: int) -> int
    decreases p.len() - i,
{
    if i >= p.len() || p[i] != SLASH {
        i
    } else {
        skip_slashes_from(p, i + 1)
    }
}

/// First index at or after `i` that holds a slash, or the end of `p`.
pub open spec fn name_end_from(p: Seq<u8>, i: int) -> int
    decreases p.len() - i,
{
    if i >= p.len() || p[i] == SLASH {
        i
    } else {
        name_end_from(p, i + 1)
    }
}

/// Splits the first component off `p` (leading slashes skipped):
/// `(start, end, rest)` with the name at `p[start..end]` and the rest of
/// the path from `rest` (just past the slash ending the name). `None`
/// when `p` holds nothing but slashes.
pub fn split_first(p: &[u8]) -> (r: Option<(usize, usize, usize)>)
    ensures
        r is None <==> forall|j: int| 0 <= j < p@.len() ==> p@[j] == SLASH,
        r is None <==> skip_slashes_from(p@, 0) >= p@.len(),
        r matches Some((s, e, rest)) ==> {
            &&& s == skip_slashes_from(p@, 0)
            &&& e == name_end_from(p@, s as int)
            &&& s < e <= p@.len()
            &&& forall|j: int| 0 <= j < s ==> p@[j] == SLASH
            &&& forall|j: int| s <= j < e ==> p@[j] != SLASH
            &&& e == p@.len() || p@[e as int] == SLASH
            &&& rest == (if e < p@.len() {
                e + 1
            } else {
                e as int
            })
        },
{
    let n: usize = p.len();
    let mut s: usize = 0;
    while s < n && p[s] == SLASH
        invariant
            n == p@.len(),
            s <= n,
            forall|j: int| 0 <= j < s ==> p@[j] == SLASH,
            skip_slashes_from(p@, 0) == skip_slashes_from(p@, s as int),
        decreases n - s,
    {
        s = s + 1;
    }
    if s == n {
        return None;
    }
    let mut e: usize = s;
    while e < n && p[e] != SLASH
        invariant
            n == p@.len(),
            s <= e <= n,
            forall|j: int| s <= j < e ==> p@[j] != SLASH,
            name_end_from(p@, s as int) == name_end_from(p@, e as int),
        decreases n - e,
    {
        e = e + 1;
    }
    let rest: usize = if e < n {
        e + 1
    } else {
        e
    };
    Some((s, e, rest))
}

/// Nothing but slashes from `from` on: the component just split off was
/// the last one.
pub fn only_slashes_from(p: &[u8], from: usize) -> (r: bool)
    ensures
        r == forall|j: int| from <= j < p@.len() ==> p@[j] == SLASH,
{
    let n: usize = p.len();
    let mut i: usize = from;
    while i < n
        invariant
            n == p@.len(),
            from <= i || i >= n,
            forall|j: int| from <= j < i ==> p@[j] == SLASH,
        decreases n - i,
    {
        if p[i] != SLASH {
            return false;
        }
        i = i + 1;
    }
    true
}

/// The path that resolution continues with after a symlink: its
/// target, then a slash and the rest of the path, if any.
pub fn splice_symlink(target: &[u8], rest: &[u8]) -> (r: Vec<u8>)
    ensures
        rest@.len() == 0 ==> r@ == target@,
        rest@.len() > 0 ==> r@ == target@ + seq![SLASH] + rest@,
{
    let mut v: Vec<u8> = Vec::new();
    let mut i: usize = 0;
    while i < target.len()
        invariant
            i <= target@.len(),
            v@ == target@.take(i as int),
        decreases target@.len() - i,
    {
        v.push(target[i]);
        i = i + 1;
        proof {
            assert(v@ =~= target@.take(i as int));
        }
    }
    proof {
        assert(target@.take(target@.len() as int) =~= target@);
    }
    if rest.len() == 0 {
        return v;
    }
    v.push(SLASH);
    let mut j: usize = 0;
    while j < rest.len()
        invariant
            j <= rest@.len(),
            v@ == target@ + seq![SLASH] + rest@.take(j as int),
        decreases rest@.len() - j,
    {
        v.push(rest[j]);
        j = j + 1;
        proof {
            assert(v@ =~= target@ + seq![SLASH] + rest@.take(j as int));
        }
    }
    proof {
        assert(rest@.take(rest@.len() as int) =~= rest@);
    }
    v
}

/// What resolution does with a component, given the directory it is
/// looked up in.
#[derive(Clone, Copy, Debug, PartialEq, Eq, Structural)]
pub enum StepAction {
    /// The current inode is not a directory: resolution fails.
    NotDir,
    /// Parent wanted and this is the last component: stop here.
    Parent,
    /// Look the component up in the directory.
    Lookup,
}

/// First decision for a component: `typ` is the current inode's type.
pub fn dir_step(typ: u16, want_parent: bool, is_last: bool) -> (r: StepAction)
    ensures
        typ != T_DIR ==> r == StepAction::NotDir,
        typ == T_DIR && want_parent && is_last ==> r == StepAction::Parent,
        typ == T_DIR && !(want_parent && is_last) ==> r == StepAction::Lookup,
{
    if typ != T_DIR {
        StepAction::NotDir
    } else if want_parent && is_last {
        StepAction::Parent
    } else {
        StepAction::Lookup
    }
}

/// Inode number of the root directory.
pub const ROOTINO: u32 = 1;

/// Where resolution of `path` starts, or starts over after a symlink's
/// target is spliced in: at the root for an absolute path, else at the
/// directory `cur` it was resolving from.
pub fn walk_start(path: &[u8], cur: u32) -> (r: u32)
    ensures
        r == (if path@.len() > 0 && path@[0] == SLASH {
            ROOTINO
        } else {
            cur
        }),
{
    if path.len() > 0 && path[0] == SLASH {
        ROOTINO
    } else {
        cur
    }
}

/// What resolution yields once no component is left, standing at
/// `cur`: that inode, or `None` when a parent directory was wanted (the
/// path named no last component to stop before).
pub fn walk_end(cur: u32, want_parent: bool) -> (r: Option<u32>)
    ensures
        r == (if want_parent {
            None
        } else {
            Some(cur)
        }),
{
    if want_parent {
        None
    } else {
        Some(cur)
    }
}

/// What resolution does with the inode a component named.
#[derive(Clone, Copy, Debug, PartialEq, Eq, Structural)]
pub enum FoundAction {
    /// Move on to it.
    Descend,
    /// It is a symlink to follow: read its target and splice it in.
    Follow,
    /// Too many symlinks.
    TooManyHops,
}

/// Second decision for a component: `next_typ` is the found inode's
/// type. Counts a followed symlink in `hops`.
pub fn found_step(next_typ: u16, is_last: bool, follow_last: bool, hops: &mut u32) -> (r: FoundAction)
    ensures
        !(next_typ == T_SYMLINK && (!is_last || follow_last)) ==> r == FoundAction::Descend && *final(hops) == *old(
            hops,
        ),
        next_typ == T_SYMLINK && (!is_last || follow_last) ==> *final(hops) == (if *old(hops) < u32::MAX {
            *old(hops) + 1
        } else {
            *old(hops) as int
        }) && (r == (if *old(hops) + 1 > MAX_SYMLINK_HOPS {
            FoundAction::TooManyHops
        } else {
            FoundAction::Follow
        })),
{
    if next_typ == T_SYMLINK && (!is_last || follow_last) {
        if *hops >= MAX_SYMLINK_HOPS {
            if *hops < u32::MAX {
                *hops = *hops + 1;
            }
            return FoundAction::TooManyHops;
        }
        *hops = *hops + 1;
        FoundAction::Follow
    } else {
        FoundAction::Descend
    }
}

/// Inode number of the first live entry named `name` among the
/// directory entries `dir` (the directory's contents, 16 bytes each); a
/// trailing partial entry ends the scan.
pub open spec fn lookup_at(dir: Seq<u8>, name: Seq<u8>, k: int) -> bool {
    &&& 16 * k + 16 <= dir.len()
    &&& crate::bytes::le16(dir, 16 * k) != 0
    &&& dirent_name_matches_spec(dir.subrange(16 * k + 2, 16 * k + 16), name)
}

/// Scans the entries of directory contents `dir` for `name`.
pub fn dirlookup_in(dir: &[u8], name: &[u8]) -> (r: Option<u16>)
    ensures
        match r {
            Some(inum) => exists|k: int|
                0 <= k && #[trigger] lookup_at(dir@, name@, k) && inum == crate::bytes::le16(dir@, 16 * k) && forall|j: int|
                    0 <= j < k ==> !#[trigger] lookup_at(dir@, name@, j),
            None => forall|k: int| 0 <= k ==> !#[trigger] lookup_at(dir@, name@, k),
        },
{
    let n: usize = dir.len();
    let mut off: usize = 0;
    let ghost mut k: int = 0;
    while off < n && 16 <= n - off
        invariant
            n == dir@.len(),
            off == 16 * k,
            0 <= k,
            off <= n,
            forall|j: int| 0 <= j < k ==> !#[trigger] lookup_at(dir@, name@, j),
        decreases n - off,
    {
        let e = Dirent::decode(dir, off);
        proof {
            assert(e.name@ =~= dir@.subrange(off + 2, off + 16));
        }
        if e.inum != 0 && dirent_name_matches(&e, name) {
            proof {
                assert(lookup_at(dir@, name@, k));
            }
            return Some(e.inum);
        }
        off = off + 16;
        proof {
            k = k + 1;
        }
    }
    proof {
        assert forall|j: int| 0 <= j implies !#[trigger] lookup_at(dir@, name@, j) by {
            if j >= k {
                assert(16 * j + 16 > dir@.len());
            }
        }
    }
    None
}


/// Offset of the entry `dirlookup_in` finds for `name`, if any.
fn find_entry(dir: &[u8], name: &[u8]) -> (r: Option<usize>)
    ensures
        match r {
            Some(off) => off % 16 == 0 && lookup_at(dir@, name@, off as int / 16) && forall|j: int|
                0 <= j < off as int / 16 ==> !#[trigger] lookup_at(dir@, name@, j),
            None => forall|k: int| 0 <= k ==> !#[trigger] lookup_at(dir@, name@, k),
        },
{
    let n: usize = dir.len();
    let mut off: usize = 0;
    let ghost mut k: int = 0;
    while off < n && 16 <= n - off
        invariant
            n == dir@.len(),
            off == 16 * k,
            0 <= k,
            off <= n,
            forall|j: int| 0 <= j < k ==> !#[trigger] lookup_at(dir@, name@, j),
        decreases n - off,
    {
        let e = Dirent::decode(dir, off);
        proof {
            assert(e.name@ =~= dir@.subrange(off + 2, off + 16));
        }
        if e.inum != 0 && dirent_name_matches(&e, name) {
            proof {
                assert(lookup_at(dir@, name@, k));
                assert(off / 16 == k);
            }
            return Some(off);
        }
        off = off + 16;
        proof {
            k = k + 1;
        }
    }
    proof {
        assert forall|j: int| 0 <= j implies !#[trigger] lookup_at(dir@, name@, j) by {
            if j >= k {
                assert(16 * j + 16 > dir@.len());
            }
        }
    }
    None
}

/// Removes the entry named `name` from directory contents `dir` by
/// zeroing it; false (and nothing changed) when there is none.
pub fn unlink_dirent_in(dir: &mut Vec<u8>, name: &[u8]) -> (r: bool)
    ensures
        final(dir)@.len() == old(dir)@.len(),
        r == exists|k: int| 0 <= k && #[trigger] lookup_at(old(dir)@, name@, k),
        r ==> exists|k: int|
            0 <= k && #[trigger] lookup_at(old(dir)@, name@, k) && (forall|j: int|
                0 <= j < k ==> !#[trigger] lookup_at(old(dir)@, name@, j)) && forall|i: int|
                0 <= i < old(dir)@.len() ==> #[trigger] final(dir)@[i] == (if 16 * k <= i < 16 * k + 16 {
                    0u8
                } else {
                    old(dir)@[i]
                }),
        !r ==> final(dir)@ == old(dir)@,
{
    match find_entry(dir.as_slice(), name) {
        None => false,
        Some(off) => {
            let ghost k: int = off as int / 16;
            let z = Dirent::empty();
            z.encode(dir, off);
            proof {
                assert(lookup_at(old(dir)@, name@, k));
                assert forall|i: int| 0 <= i < old(dir)@.len() implies #[trigger] dir@[i] == (if 16 * k <= i < 16 * k
                    + 16 {
                    0u8
                } else {
                    old(dir)@[i]
                }) by {
                    if 16 * k + 2 <= i < 16 * k + 16 {
                        assert(dir@[off + 2 + (i - off - 2)] == z.name[i - off - 2]);
                    }
                }
            }
            true
        },
    }
}

/// Where `dirlink` puts a new entry in directory contents `dir`: the
/// first unused entry (inode 0), else just past the last whole entry.
pub fn dirlink_slot(dir: &[u8]) -> (r: usize)
    ensures
        r % 16 == 0,
        r <= dir@.len(),
        forall|j: int| 0 <= j < r / 16 ==> #[trigger] crate::bytes::le16(dir@, 16 * j) != 0,
        r + 16 <= dir@.len() ==> crate::bytes::le16(dir@, r as int) == 0,
        r + 16 > dir@.len() ==> r == dir@.len() / 16 * 16,
{
    let n: usize = dir.len();
    let mut off: usize = 0;
    let ghost mut k: int = 0;
    while off < n && 16 <= n - off
        invariant
            n == dir@.len(),
            off == 16 * k,
            0 <= k,
            off <= n,
            forall|j: int| 0 <= j < k ==> #[trigger] crate::bytes::le16(dir@, 16 * j) != 0,
        decreases n - off,
    {
        if crate::bytes::get_u16(dir, off) == 0 {
            proof {
                assert(off / 16 == k);
            }
            return off;
        }
        off = off + 16;
        proof {
            k = k + 1;
        }
    }
    proof {
        assert(off / 16 == k);
        assert(off == n / 16 * 16) by (nonlinear_arith)
            requires
                off == 16 * k,
                off <= n,
                off + 16 > n,
        ;
    }
    off
}

/// A directory is empty when no entry past `.` and `..` is in use.
pub fn dir_is_empty_in(dir: &[u8]) -> (r: bool)
    ensures
        r == forall|k: int| 2 <= k && 16 * k + 16 <= dir@.len() ==> #[trigger] crate::bytes::le16(dir@, 16 * k) == 0,
{
    let n: usize = dir.len();
    let mut off: usize = 32;
    let ghost mut k: int = 2;
    while off < n && 16 <= n - off
        invariant
            n == dir@.len(),
            off == 16 * k,
            2 <= k,
            forall|j: int| 2 <= j < k && 16 * j + 16 <= dir@.len() ==> #[trigger] crate::bytes::le16(dir@, 16 * j) == 0,
        decreases n - off,
    {
        if crate::bytes::get_u16(dir, off) != 0 {
            return false;
        }
        off = off + 16;
        proof {
            k = k + 1;
        }
    }
    true
}

/// `create` on a name that exists already: a regular-file create hands
/// back an existing file or device; anything else fails.
pub fn create_reuses_existing(typ: u16, existing_typ: u16) -> (r: bool)
    ensures
        r == (typ == T_FILE && (existing_typ == T_FILE || existing_typ == T_DEVICE)),
{
    typ == T_FILE && (existing_typ == T_FILE || existing_typ == T_DEVICE)
}

/// A name `create` accepts for a new entry: not empty, not `.` or `..`,
/// and at most `DIRSIZ` bytes.
pub fn create_name_ok(name: &[u8]) -> (r: bool)
    ensures
        r == (name@.len() > 0 && name@ != seq![46u8] && name@ != seq![46u8, 46u8] && name@.len() <= DIRSIZ),
{
    let n: usize = name.len();
    if n == 0 || n > DIRSIZ {
        return false;
    }
    if n == 1 && name[0] == 46 {
        assert(name@ =~= seq![46u8]);
        return false;
    }
    if n == 2 && name[0] == 46 && name[1] == 46 {
        assert(name@ =~= seq![46u8, 46u8]);
        return false;
    }
    proof {
        if n == 1 {
            assert(name@ != seq![46u8]) by {
                assert(name@[0] != seq![46u8][0]);
            }
        }
        if n == 2 {
            assert(name@ != seq![46u8, 46u8]) by {
                if name@[0] != 46 {
                    assert(name@[0] != seq![46u8, 46u8][0]);
                } else {
                    assert(name@[1] != seq![46u8, 46u8][1]);
                }
            }
        }
    }
    true
}

/// Link counts after removing an entry for a child of type `child_typ`
/// from its directory.
#[derive(Clone, Copy, Debug, PartialEq, Eq, Structural)]
pub struct UnlinkPlan {
    /// New link count of the directory (one less when the child is a
    /// directory: its `..` goes).
    pub parent_nlink: u16,
    /// New link count of the child.
    pub child_nlink: u16,
    /// The child is gone: no link and no holder but the caller and the
    /// cache, so its blocks are freed and its inode released.
    pub free_child: bool,
}

/// `unlink` once the entry is found: `None` (the call fails) for a
/// directory that still has entries; else the new link counts, and
/// whether the child is to be freed. `holders` counts the references to
/// the child's in-memory inode, the caller's and the cache's included.
pub fn unlink_plan(child_typ: u16, child_dir_empty: bool, parent_nlink: u16, child_nlink: u16, holders: u64) -> (r:
    Option<UnlinkPlan>)
    requires
        child_nlink >= 1,
        child_typ == T_DIR && child_dir_empty ==> parent_nlink >= 1,
    ensures
        r == (if child_typ == T_DIR && !child_dir_empty {
            None
        } else {
            Some(
                UnlinkPlan {
                    parent_nlink: if child_typ == T_DIR {
                        (parent_nlink - 1) as u16
                    } else {
                        parent_nlink
                    },
                    child_nlink: (child_nlink - 1) as u16,
                    free_child: child_nlink - 1 == 0 && holders <= 2,
                },
            )
        }),
{
    if child_typ == T_DIR && !child_dir_empty {
        return None;
    }
    let p: u16 = if child_typ == T_DIR {
        parent_nlink - 1
    } else {
        parent_nlink
    };
    let c: u16 = child_nlink - 1;
    Some(UnlinkPlan { parent_nlink: p, child_nlink: c, free_child: c == 0 && holders <= 2 })
}

/// The absolute path of a directory from the names met walking up to the
/// root, leaf first: `/` for the root itself, else `/name` for each,
/// root side first.
pub open spec fn cwd_path_spec(parts: Seq<Seq<u8>>) -> Seq<u8>
    decreases parts.len(),
{
    if parts.len() == 0 {
        Seq::empty()
    } else {
        cwd_path_spec(parts.drop_first()) + seq![SLASH] + parts[0]
    }
}

/// Builds the working-directory path from the names collected leaf first.
pub fn cwd_path(parts: &Vec<Vec<u8>>) -> (r: Vec<u8>)
    ensures
        parts@.len() == 0 ==> r@ == seq![SLASH],
        parts@.len() > 0 ==> r@ == cwd_path_spec(parts@.map_values(|p: Vec<u8>| p@)),
{
    let mut out: Vec<u8> = Vec::new();
    if parts.len() == 0 {
        out.push(SLASH);
        return out;
    }
    let ghost ps = parts@.map_values(|p: Vec<u8>| p@);
    let mut k: usize = parts.len();
    while k > 0
        invariant
            k <= parts@.len(),
            ps == parts@.map_values(|p: Vec<u8>| p@),
            out@ == cwd_path_spec(ps.skip(k as int)),
        decreases k,
    {
        k = k - 1;
        out.push(SLASH);
        let part: &Vec<u8> = &parts[k];
        let ghost before = out@;
        let mut i: usize = 0;
        while i < part.len()
            invariant
                i <= part@.len(),
                out@ == before + part@.take(i as int),
            decreases part@.len() - i,
        {
            out.push(part[i]);
            i = i + 1;
            proof {
                assert(out@ =~= before + part@.take(i as int));
            }
        }
        proof {
            assert(part@.take(part@.len() as int) =~= part@);
            assert(ps.skip(k as int).drop_first() =~= ps.skip(k + 1));
            assert(ps.skip(k as int)[0] == part@);
        }
    }
    proof {
        assert(ps.skip(0) =~= ps);
    }
    out
}
} // verus!
