//! Inode cache and the block arithmetic of reads and writes.
//!
//! The cache hands out one slot per live `(dev, inum)`: a lookup first
//! looks for a slot that someone still holds for that inode, then
//! re-stamps the first idle slot (marking it not loaded).

use vstd::prelude::*;

use crate::layout::{MAXFILE, NDIRECT, NINDIRECT};

verus! {

pub const NINODE_CACHE: usize = 50;
pub const INUM_FREE: u32 = 0xffff_ffff;
pub const BSIZE: u32 = 512;

/// In-memory copy of an on-disk inode.
#[derive(Clone, Copy, Debug)]
pub struct InodeState {
    pub typ: u16,
    pub major: u16,
    pub minor: u16,
    pub nlink: u16,
    pub size: u32,
    pub addrs: [u32; 13],
}

/// A cache slot: which inode it holds, whether its state is loaded,
/// whether it is locked, and how many holders besides the cache it has.
#[derive(Clone, Copy, Debug)]
pub struct Inode {
    pub dev: u32,
    pub inum: u32,
    pub valid: bool,
    pub locked: bool,
    pub holders: u32,
    pub state: InodeState,
}

impl InodeState {
    pub fn empty() -> (r: Self)
        ensures
            r.typ == 0 && r.size == 0 && r.nlink == 0,
            r.major == 0 && r.minor == 0,
            forall|k: int| 0 <= k < 13 ==> r.addrs@[k] == 0,
    {
        InodeState { typ: 0, major: 0, minor: 0, nlink: 0, size: 0, addrs: [0u32; 13] }
    }
}

impl Inode {
    /// An unused slot.
    pub fn new_empty() -> (r: Self)
        ensures
            r.inum == INUM_FREE && !r.valid && !r.locked && r.holders == 0 && r.dev == 0,
    {
        Inode { dev: 0, inum: INUM_FREE, valid: false, locked: false, holders: 0, state: InodeState::empty() }
    }
}

/// A locked inode, by its cache slot.
pub struct LockedInode {
    pub slot: usize,
    pub dev: u32,
    pub inum: u32,
}

impl LockedInode {
    /// Cache slot of the inode.
    pub fn inode(&self) -> (r: usize)
        ensures
            r == self.slot,
    {
        self.slot
    }

    pub fn inum(&self) -> (r: u32)
        ensures
            r == self.inum,
    {
        self.inum
    }

    pub fn dev(&self) -> (r: u32)
        ensures
            r == self.dev,
    {
        self.dev
    }
}

/// The inode cache.
pub struct InodeCache {
    pub slots: Vec<Inode>,
}

/// Slot `i` is held for `(dev, inum)`.
pub open spec fn live_for(s: Seq<Inode>, i: int, dev: u32, inum: u32) -> bool {
    s[i].holders > 0 && s[i].dev == dev && s[i].inum == inum
}

impl InodeCache {
    /// No inode is live in two slots.
    pub open spec fn wf(&self) -> bool {
        forall|i: int, j: int|
            #![trigger self.slots@[i], self.slots@[j]]
            0 <= i < self.slots@.len() && 0 <= j < self.slots@.len() && i != j && self.slots@[i].holders > 0
                && self.slots@[j].holders > 0 ==> !(self.slots@[i].dev == self.slots@[j].dev && self.slots@[i].inum
                == self.slots@[j].inum)
    }

    /// `iget(dev, inum)` can be served: a live slot or an idle one.
    pub open spec fn can_get(&self, dev: u32, inum: u32) -> bool {
        exists|i: int|
            0 <= i < self.slots@.len() && (live_for(self.slots@, i, dev, inum) || #[trigger] self.slots@[i].holders
                == 0)
    }

    pub fn new() -> (r: Self)
        ensures
            r.wf(),
            r.slots@.len() == 0,
    {
        InodeCache { slots: Vec::new() }
    }
}

/// Fills an empty cache with `NINODE_CACHE` unused slots.
pub fn init_cache(cache: &mut InodeCache)
    requires
        old(cache).wf(),
    ensures
        final(cache).wf(),
        old(cache).slots@.len() == 0 ==> final(cache).slots@.len() == NINODE_CACHE && forall|i: int|
            0 <= i < NINODE_CACHE ==> #[trigger] final(cache).slots@[i].holders == 0,
        old(cache).slots@.len() != 0 ==> final(cache).slots@ == old(cache).slots@,
{
    if cache.slots.len() == 0 {
        let mut k: usize = 0;
        while k < NINODE_CACHE
            invariant
                k <= NINODE_CACHE,
                cache.slots@.len() == k,
                forall|i: int| 0 <= i < k ==> #[trigger] cache.slots@[i].holders == 0,
            decreases NINODE_CACHE - k,
        {
            cache.slots.push(Inode::new_empty());
            k = k + 1;
        }
    }
}

/// `iget(dev, inum)`: the slot of a live copy of the inode, or the
/// first idle slot re-stamped for it (to be loaded on the next lock).
/// The caller becomes one more holder.
pub fn iget(cache: &mut InodeCache, dev: u32, inum: u32) -> (r: usize)
    requires
        old(cache).wf(),
        old(cache).can_get(dev, inum),
        forall|i: int| 0 <= i < old(cache).slots@.len() ==> #[trigger] old(cache).slots@[i].holders < u32::MAX,
    ensures
        final(cache).wf(),
        r < old(cache).slots@.len(),
        final(cache).slots@.len() == old(cache).slots@.len(),
        live_for(final(cache).slots@, r as int, dev, inum),
        final(cache).slots@[r as int].holders == old(cache).slots@[r as int].holders + 1,
        (exists|i: int| 0 <= i < old(cache).slots@.len() && live_for(old(cache).slots@, i, dev, inum)) ==> {
            &&& live_for(old(cache).slots@, r as int, dev, inum)
            &&& final(cache).slots@ == old(cache).slots@.update(
                r as int,
                Inode { holders: (old(cache).slots@[r as int].holders + 1) as u32, ..old(cache).slots@[r as int] },
            )
        },
        !(exists|i: int| 0 <= i < old(cache).slots@.len() && live_for(old(cache).slots@, i, dev, inum)) ==> {
            &&& old(cache).slots@[r as int].holders == 0
            &&& forall|j: int| 0 <= j < r ==> #[trigger] old(cache).slots@[j].holders != 0
            &&& final(cache).slots@ == old(cache).slots@.update(
                r as int,
                Inode { dev, inum, valid: false, holders: 1, ..old(cache).slots@[r as int] },
            )
        },
{
    let n: usize = cache.slots.len();
    let mut i: usize = 0;
    while i < n
        invariant
            n == cache.slots@.len(),
            cache.slots@ == old(cache).slots@,
            old(cache).wf(),
            forall|j: int| 0 <= j < old(cache).slots@.len() ==> #[trigger] old(cache).slots@[j].holders < u32::MAX,
            i <= n,
            forall|j: int| 0 <= j < i ==> !live_for(cache.slots@, j, dev, inum),
        decreases n - i,
    {
        let s = cache.slots[i];
        if s.holders > 0 && s.inum == inum && s.dev == dev {
            cache.slots.set(i, Inode { holders: s.holders + 1, ..s });
            proof {
                let c = cache.slots@;
                let o = old(cache).slots@;
                assert(live_for(o, i as int, dev, inum));
                assert forall|x: int, y: int|
                    #![trigger c[x], c[y]]
                    0 <= x < c.len() && 0 <= y < c.len() && x != y && c[x].holders > 0 && c[y].holders > 0 implies !(
                    c[x].dev == c[y].dev && c[x].inum == c[y].inum) by {
                    assert(o[x].holders > 0 && o[y].holders > 0);
                    assert(c[x].dev == o[x].dev && c[y].dev == o[y].dev);
                }
            }
            return i;
        }
        i = i + 1;
    }
    i = 0;
    while i < n
        invariant
            n == cache.slots@.len(),
            cache.slots@ == old(cache).slots@,
            old(cache).wf(),
            old(cache).can_get(dev, inum),
            i <= n,
            forall|j: int| 0 <= j < n ==> !live_for(cache.slots@, j, dev, inum),
            forall|j: int| 0 <= j < i ==> #[trigger] cache.slots@[j].holders != 0,
        decreases n - i,
    {
        let s = cache.slots[i];
        if s.holders == 0 {
            cache.slots.set(i, Inode { dev, inum, valid: false, holders: 1, ..s });
            proof {
                let c = cache.slots@;
                let o = old(cache).slots@;
                assert forall|x: int, y: int|
                    #![trigger c[x], c[y]]
                    0 <= x < c.len() && 0 <= y < c.len() && x != y && c[x].holders > 0 && c[y].holders > 0 implies !(
                    c[x].dev == c[y].dev && c[x].inum == c[y].inum) by {
                    if x == i {
                        assert(!live_for(o, y, dev, inum));
                    } else if y == i {
                        assert(!live_for(o, x, dev, inum));
                    } else {
                        assert(o[x].holders > 0 && o[y].holders > 0);
                    }
                }
            }
            return i;
        }
        i = i + 1;
    }
    proof {
        let w = choose|w: int|
            0 <= w < old(cache).slots@.len() && (live_for(old(cache).slots@, w, dev, inum) || #[trigger] old(
                cache,
            ).slots@[w].holders == 0);
        assert(!live_for(cache.slots@, w, dev, inum));
        assert(cache.slots@[w].holders != 0);
    }
    0
}

/// Bytes `readi` copies: up to `dst_len`, not past the end of file.
pub fn readi_limit(size: u32, off: u32, dst_len: u32) -> (r: u32)
    ensures
        off >= size ==> r == 0,
        off < size ==> r == (if dst_len < size - off {
            dst_len as int
        } else {
            size - off
        }),
{
    if off >= size {
        return 0;
    }
    if dst_len < size - off {
        dst_len
    } else {
        size - off
    }
}

/// Bytes `writei` accepts: up to `len`, not past the largest file.
pub fn writei_limit(off: u32, len: u32) -> (r: u32)
    ensures
        off >= MAXFILE * BSIZE ==> r == 0,
        off < MAXFILE * BSIZE ==> r == (if len < MAXFILE * BSIZE - off {
            len as int
        } else {
            MAXFILE * BSIZE - off
        }),
{
    let max_bytes: u32 = MAXFILE * BSIZE;
    if off >= max_bytes {
        return 0;
    }
    if len < max_bytes - off {
        len
    } else {
        max_bytes - off
    }
}

/// One block-sized piece of a transfer: file block `bn`, offset in the
/// block, length.
#[derive(Clone, Copy, Debug, PartialEq, Eq, Structural)]
pub struct Chunk {
    pub bn: u32,
    pub block_off: u32,
    pub len: u32,
}

/// The pieces of a transfer of `n` bytes at file offset `off`, split at
/// block boundaries, in order: piece `k` starts where piece `k - 1`
/// ended and never crosses a block boundary.
pub open spec fn chunks_ok(cs: Seq<Chunk>, off: int, n: int) -> bool {
    &&& forall|k: int|
        0 <= k < cs.len() ==> {
            let start = off + chunk_start(cs, k);
            &&& #[trigger] cs[k].bn == start / 512
            &&& cs[k].block_off == start % 512
            &&& cs[k].len == (if 512 - start % 512 < n - chunk_start(cs, k) {
                512 - start % 512
            } else {
                n - chunk_start(cs, k)
            })
            &&& cs[k].len > 0
        }
    &&& chunk_start(cs, cs.len() as int) == n
}

/// Bytes before piece `k`.
pub open spec fn chunk_start(cs: Seq<Chunk>, k: int) -> int
    decreases k,
{
    if k <= 0 {
        0
    } else {
        chunk_start(cs, k - 1) + cs[k - 1].len
    }
}

/// Splits a transfer of `n` bytes at offset `off` into block pieces.
pub fn chunk_plan(off: u32, n: u32) -> (r: Vec<Chunk>)
    requires
        off + n <= u32::MAX,
    ensures
        chunks_ok(r@, off as int, n as int),
{
    let mut v: Vec<Chunk> = Vec::new();
    let mut tot: u32 = 0;
    while tot < n
        invariant
            off + n <= u32::MAX,
            tot <= n,
            chunk_start(v@, v@.len() as int) == tot,
            forall|k: int|
                0 <= k < v@.len() ==> {
                    let start = off + chunk_start(v@, k);
                    &&& #[trigger] v@[k].bn == start / 512
                    &&& v@[k].block_off == start % 512
                    &&& v@[k].len == (if 512 - start % 512 < n - chunk_start(v@, k) {
                        512 - start % 512
                    } else {
                        n - chunk_start(v@, k)
                    })
                    &&& v@[k].len > 0
                },
        decreases n - tot,
    {
        let cur: u32 = off + tot;
        let bo: u32 = cur % 512;
        let len: u32 = if 512 - bo < n - tot {
            512 - bo
        } else {
            n - tot
        };
        let ghost before = v@;
        v.push(Chunk { bn: cur / 512, block_off: bo, len });
        proof {
            assert forall|k: int| 0 <= k <= before.len() implies chunk_start(v@, k) == chunk_start(before, k) by {
                lemma_chunk_start_prefix(before, v@, k);
            }
            assert(chunk_start(v@, v@.len() as int) == chunk_start(v@, before.len() as int) + len);
            assert forall|k: int|
                0 <= k < v@.len() implies {
                    let start = off + chunk_start(v@, k);
                    &&& #[trigger] v@[k].bn == start / 512
                    &&& v@[k].block_off == start % 512
                    &&& v@[k].len == (if 512 - start % 512 < n - chunk_start(v@, k) {
                        512 - start % 512
                    } else {
                        n - chunk_start(v@, k)
                    })
                    &&& v@[k].len > 0
                } by {
                assert(chunk_start(v@, k) == chunk_start(before, k));
                if k < before.len() {
                    assert(v@[k] == before[k]);
                } else {
                    assert(chunk_start(v@, k) == tot);
                    assert(v@[k] == Chunk { bn: cur / 512, block_off: bo, len });
                }
            }
        }
        tot = tot + len;
    }
    v
}

proof fn lemma_chunk_start_prefix(a: Seq<Chunk>, b: Seq<Chunk>, k: int)
    requires
        0 <= k <= a.len(),
        a.len() <= b.len(),
        forall|i: int| 0 <= i < a.len() ==> a[i] == b[i],
    ensures
        chunk_start(b, k) == chunk_start(a, k),
    decreases k,
{
    if k > 0 {
        lemma_chunk_start_prefix(a, b, k - 1);
    }
}

/// Where file block `bn` lives: a direct address, an entry of the
/// indirect block, or beyond the largest file.
#[derive(Clone, Copy, Debug, PartialEq, Eq, Structural)]
pub enum BlockRef {
    Direct(u32),
    /// Entry `idx` of the indirect block at disk block `ind`.
    Indirect { ind: u32, idx: u32 },
    TooBig,
}

/// Where block `bn` of a file with block addresses `addrs` lives.
pub fn bmap_ref(addrs: &[u32; 13], bn: u32) -> (r: BlockRef)
    ensures
        bn < NDIRECT ==> r == BlockRef::Direct(addrs@[bn as int]),
        NDIRECT <= bn < NDIRECT + NINDIRECT ==> r == (BlockRef::Indirect { ind: addrs@[12], idx: (bn - NDIRECT) as u32 }),
        bn >= NDIRECT + NINDIRECT ==> r == BlockRef::TooBig,
{
    if (bn as usize) < NDIRECT {
        BlockRef::Direct(addrs[bn as usize])
    } else if ((bn as usize) - NDIRECT) < NINDIRECT {
        BlockRef::Indirect { ind: addrs[NDIRECT], idx: bn - 12 }
    } else {
        BlockRef::TooBig
    }
}


} // verus!
