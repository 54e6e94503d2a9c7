//! Buffer cache: a fixed pool of block buffers. A lookup either hits a
//! valid buffer, joins a load already in flight for the same block, or
//! claims an idle buffer and becomes its loader. So at most one buffer
//! ever holds (or is loading) a given block, and one disk read is
//! issued per miss.

use vstd::prelude::*;

verus! {

pub const BSIZE: usize = 512;
/// Buffers in the pool.
pub const NBUF: usize = 32;
/// Block number of a buffer that holds no block.
pub const BLOCK_INVALID: u32 = 0xffff_ffff;

/// One cache slot.
#[derive(Clone, Copy, Debug, PartialEq, Eq, Structural)]
pub struct Buffer {
    pub block_no: u32,
    /// The data has been read from disk.
    pub valid: bool,
    /// A read into this buffer is in flight.
    pub loading: bool,
}

impl Buffer {
    /// An empty slot.
    pub fn new() -> (r: Self)
        ensures
            r == (Buffer { block_no: BLOCK_INVALID, valid: false, loading: false }),
    {
        Buffer { block_no: BLOCK_INVALID, valid: false, loading: false }
    }
}

/// What a lookup makes of the caller.
#[derive(Clone, Copy, Debug, PartialEq, Eq, Structural)]
pub enum Role {
    /// The block is cached and valid.
    Hit,
    /// The caller must read the block into the buffer.
    Loader,
    /// Another task is reading the block; wait and look up again.
    Waiter,
}

/// The buffer pool.
pub struct Cache {
    pub bufs: Vec<Buffer>,
}

/// Buffer `b` holds or is loading block `blk`.
pub open spec fn holds(b: Buffer, blk: u32) -> bool {
    b.block_no == blk && (b.valid || b.loading)
}

/// Buffer `b` is free to be claimed.
pub open spec fn idle(b: Buffer) -> bool {
    !b.valid && !b.loading
}

impl Cache {
    /// Never valid and loading at once; no block in two buffers.
    pub open spec fn wf(&self) -> bool {
        &&& forall|i: int| 0 <= i < self.bufs@.len() ==> !(#[trigger] self.bufs@[i].valid && self.bufs@[i].loading)
        &&& forall|i: int, j: int|
            #![trigger self.bufs@[i], self.bufs@[j]]
            0 <= i < self.bufs@.len() && 0 <= j < self.bufs@.len() && i != j && (self.bufs@[i].valid
                || self.bufs@[i].loading) && (self.bufs@[j].valid || self.bufs@[j].loading)
                ==> self.bufs@[i].block_no != self.bufs@[j].block_no
    }

    /// A lookup of `blk` can be served: hit, join, or an idle slot.
    pub open spec fn can_serve(&self, blk: u32) -> bool {
        exists|i: int| 0 <= i < self.bufs@.len() && (holds(#[trigger] self.bufs@[i], blk) || idle(self.bufs@[i]))
    }

    /// An empty pool.
    pub fn new() -> (r: Self)
        ensures
            r.wf(),
            r.bufs@.len() == 0,
    {
        Cache { bufs: Vec::new() }
    }
}

/// Fills an empty pool with `NBUF` idle buffers.
pub fn init(cache: &mut Cache)
    requires
        old(cache).wf(),
    ensures
        final(cache).wf(),
        old(cache).bufs@.len() == 0 ==> final(cache).bufs@.len() == NBUF && forall|i: int|
            0 <= i < NBUF ==> #[trigger] final(cache).bufs@[i] == Buffer::new_spec(),
        old(cache).bufs@.len() != 0 ==> final(cache).bufs@ == old(cache).bufs@,
{
    if cache.bufs.len() == 0 {
        let mut k: usize = 0;
        while k < NBUF
            invariant
                k <= NBUF,
                cache.bufs@.len() == k,
                forall|i: int| 0 <= i < k ==> #[trigger] cache.bufs@[i] == Buffer::new_spec(),
            decreases NBUF - k,
        {
            cache.bufs.push(Buffer::new());
            k = k + 1;
        }
    }
}

impl Buffer {
    pub open spec fn new_spec() -> Buffer {
        Buffer { block_no: BLOCK_INVALID, valid: false, loading: false }
    }
}

/// One resolution step of `bread(blk)`: the slot to use and the
/// caller's role. A valid copy wins, then a load in flight; otherwise
/// the first idle slot is claimed for loading `blk`.
pub fn bread_step(cache: &mut Cache, blk: u32) -> (r: (usize, Role))
    requires
        old(cache).wf(),
        old(cache).can_serve(blk),
    ensures
        final(cache).wf(),
        r.0 < old(cache).bufs@.len(),
        final(cache).bufs@.len() == old(cache).bufs@.len(),
        match r.1 {
            Role::Hit => {
                &&& old(cache).bufs@[r.0 as int].block_no == blk && old(cache).bufs@[r.0 as int].valid
                &&& final(cache).bufs@ == old(cache).bufs@
            },
            Role::Waiter => {
                &&& old(cache).bufs@[r.0 as int].block_no == blk && old(cache).bufs@[r.0 as int].loading
                &&& final(cache).bufs@ == old(cache).bufs@
            },
            Role::Loader => {
                &&& forall|j: int| 0 <= j < old(cache).bufs@.len() ==> !holds(#[trigger] old(cache).bufs@[j], blk)
                &&& idle(old(cache).bufs@[r.0 as int])
                &&& forall|j: int| 0 <= j < r.0 ==> !idle(#[trigger] old(cache).bufs@[j])
                &&& final(cache).bufs@ == old(cache).bufs@.update(
                    r.0 as int,
                    Buffer { block_no: blk, valid: false, loading: true },
                )
            },
        },
{
    let n: usize = cache.bufs.len();
    let mut i: usize = 0;
    while i < n
        invariant
            n == cache.bufs@.len(),
            cache.bufs@ == old(cache).bufs@,
            old(cache).wf(),
            old(cache).can_serve(blk),
            i <= n,
            forall|j: int| 0 <= j < i ==> !(#[trigger] cache.bufs@[j].block_no == blk && cache.bufs@[j].valid),
        decreases n - i,
    {
        if cache.bufs[i].block_no == blk && cache.bufs[i].valid {
            return (i, Role::Hit);
        }
        i = i + 1;
    }
    i = 0;
    while i < n
        invariant
            n == cache.bufs@.len(),
            cache.bufs@ == old(cache).bufs@,
            old(cache).wf(),
            old(cache).can_serve(blk),
            i <= n,
            forall|j: int| 0 <= j < n ==> !(#[trigger] cache.bufs@[j].block_no == blk && cache.bufs@[j].valid),
            forall|j: int| 0 <= j < i ==> !(#[trigger] cache.bufs@[j].block_no == blk && cache.bufs@[j].loading),
        decreases n - i,
    {
        if cache.bufs[i].block_no == blk && cache.bufs[i].loading {
            return (i, Role::Waiter);
        }
        i = i + 1;
    }
    i = 0;
    while i < n
        invariant
            n == cache.bufs@.len(),
            cache.bufs@ == old(cache).bufs@,
            old(cache).wf(),
            old(cache).can_serve(blk),
            i <= n,
            forall|j: int| 0 <= j < n ==> !holds(#[trigger] cache.bufs@[j], blk),
            forall|j: int| 0 <= j < i ==> !idle(#[trigger] cache.bufs@[j]),
        decreases n - i,
    {
        if !cache.bufs[i].valid && !cache.bufs[i].loading {
            cache.bufs.set(i, Buffer { block_no: blk, valid: false, loading: true });
            return (i, Role::Loader);
        }
        i = i + 1;
    }
    proof {
        let w = choose|w: int| 0 <= w < cache.bufs@.len() && (holds(#[trigger] cache.bufs@[w], blk) || idle(cache.bufs@[w]));
        assert(!holds(cache.bufs@[w], blk));
        assert(!idle(cache.bufs@[w]));
    }
    (0, Role::Hit)
}

/// The read into slot `i` finished: the buffer is valid.
pub fn load_done(cache: &mut Cache, i: usize)
    requires
        old(cache).wf(),
        i < old(cache).bufs@.len(),
        old(cache).bufs@[i as int].loading,
    ensures
        final(cache).wf(),
        final(cache).bufs@ == old(cache).bufs@.update(
            i as int,
            Buffer { block_no: old(cache).bufs@[i as int].block_no, valid: true, loading: false },
        ),
{
    let b = cache.bufs[i].block_no;
    cache.bufs.set(i, Buffer { block_no: b, valid: true, loading: false });
    proof {
        let o = old(cache).bufs@;
        let c = cache.bufs@;
        assert forall|x: int, y: int|
            #![trigger c[x], c[y]]
            0 <= x < c.len() && 0 <= y < c.len() && x != y && (c[x].valid || c[x].loading) && (
            c[y].valid || c[y].loading) implies c[x].block_no != c[y].block_no by {
            assert(c[x].block_no == o[x].block_no);
            assert(c[y].block_no == o[y].block_no);
        }
    }
}

} // verus!
