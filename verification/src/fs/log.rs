//! Write-ahead log: admission of file-system operations, recording of
//! modified blocks, and the commit hand-off.
//!
//! A transaction is opened with `begin_op`; each modified block is
//! recorded with `log_write`; the last `end_op` of a group starts the
//! commit. The commit copies the recorded blocks into the log slots
//! `start + 1 + i`, writes the header (the commit point), writes the
//! blocks home and clears the header. On boot a header with `n > 0`
//! is replayed in full.

use vstd::prelude::*;

use crate::bytes::{get_u32, le32, put_u32};

verus! {

pub const LOGSIZE: usize = 30;
/// Max blocks any one fs operation may write.
pub const MAXOPBLOCKS: u32 = 10;
/// Disk block size.
pub const BSIZE: usize = 512;

/// The log header: how many blocks are logged and their home numbers.
#[derive(Clone, Copy, Debug)]
pub struct LogHeader {
    pub n: u32,
    pub block: [u32; LOGSIZE],
}

impl LogHeader {
    /// The empty header.
    pub fn zero() -> (r: Self)
        ensures
            r.n == 0,
            forall|i: int| 0 <= i < LOGSIZE ==> r.block@[i] == 0,
    {
        LogHeader { n: 0, block: [0u32; LOGSIZE] }
    }
}

/// Log bookkeeping shared by all file-system operations.
pub struct LogState {
    pub start: u32,
    pub size: u32,
    pub outstanding: u32,
    pub committing: bool,
    pub initialized: bool,
    pub lh: LogHeader,
}

impl LogState {
    /// The recorded blocks, in the order they were first written.
    pub open spec fn logged(&self) -> Seq<u32> {
        self.lh.block@.take(self.lh.n as int)
    }

    /// At most `LOGSIZE` blocks, none recorded twice.
    pub open spec fn wf(&self) -> bool {
        &&& self.lh.n <= LOGSIZE
        &&& self.logged().no_duplicates()
    }

    /// A log that has not been placed on disk yet.
    pub fn zero() -> (r: Self)
        ensures
            r.wf(),
            !r.initialized,
            !r.committing,
            r.outstanding == 0,
            r.lh.n == 0,
            forall|i: int| 0 <= i < LOGSIZE ==> r.lh.block@[i] == 0,
            r.start == 0,
            r.size == 0,
    {
        LogState { start: 0, size: 0, outstanding: 0, committing: false, initialized: false, lh: LogHeader::zero() }
    }

    /// Places the log at `log_start` with `log_size` blocks (recovery
    /// then replays the on-disk header).
    pub fn init(&mut self, log_start: u32, log_size: u32)
        ensures
            final(self).start == log_start,
            final(self).size == log_size,
            final(self).initialized,
            final(self).outstanding == old(self).outstanding,
            final(self).committing == old(self).committing,
            final(self).lh == old(self).lh,
    {
        self.start = log_start;
        self.size = log_size;
        self.initialized = true;
    }

    /// One attempt of `begin_op`: admits the operation (and counts it)
    /// unless a commit is running or the log lacks room for one more
    /// operation's worth of blocks; then the caller waits for a commit.
    pub fn try_begin_op(&mut self) -> (ready: bool)
        requires
            old(self).initialized,
            old(self).wf(),
        ensures
            final(self).wf(),
            ready == (!old(self).committing && old(self).lh.n + (old(self).outstanding + 1) * MAXOPBLOCKS
                <= LOGSIZE),
            ready ==> final(self).outstanding == old(self).outstanding + 1,
            !ready ==> final(self).outstanding == old(self).outstanding,
            final(self).lh == old(self).lh,
            final(self).committing == old(self).committing,
            final(self).start == old(self).start,
            final(self).initialized == old(self).initialized,
    {
        proof {
            assert(((self.outstanding as u64) + 1) * (MAXOPBLOCKS as u64) <= 0x1_0000_0000 * 10) by (nonlinear_arith)
                requires
                    self.outstanding < 0x1_0000_0000,
                    MAXOPBLOCKS == 10,
            ;
        }
        if self.committing {
            false
        } else if (self.lh.n as u64) + ((self.outstanding as u64) + 1) * (MAXOPBLOCKS as u64) > LOGSIZE as u64 {
            false
        } else {
            self.outstanding = self.outstanding + 1;
            true
        }
    }

    /// Whether a task waiting in `begin_op` should retry now.
    pub fn commit_wait_ready(&self) -> (r: bool)
        requires
            self.wf(),
        ensures
            r == !(self.committing || self.lh.n + MAXOPBLOCKS > LOGSIZE),
    {
        !(self.committing || self.lh.n + MAXOPBLOCKS > LOGSIZE as u32)
    }

    /// `end_op`: the operation is done. Returns `true` when it was the
    /// last one in flight; the log is then marked committing and the
    /// caller runs the commit. Otherwise waiters are to be woken.
    pub fn end_op(&mut self) -> (do_commit: bool)
        requires
            old(self).wf(),
            old(self).outstanding > 0,
            !old(self).committing,
        ensures
            final(self).wf(),
            final(self).outstanding == old(self).outstanding - 1,
            do_commit == (final(self).outstanding == 0),
            final(self).committing == do_commit,
            final(self).lh == old(self).lh,
            final(self).start == old(self).start,
            final(self).initialized == old(self).initialized,
    {
        self.outstanding = self.outstanding - 1;
        if self.outstanding == 0 {
            self.committing = true;
            true
        } else {
            false
        }
    }

    /// After the commit's disk writes: the log is empty and new
    /// operations may start.
    pub fn finish_commit(&mut self)
        requires
            old(self).wf(),
        ensures
            final(self).wf(),
            final(self).lh.n == 0,
            final(self).logged() == Seq::<u32>::empty(),
            !final(self).committing,
            final(self).outstanding == old(self).outstanding,
            final(self).start == old(self).start,
            final(self).initialized == old(self).initialized,
    {
        self.lh = LogHeader::zero();
        self.committing = false;
        proof {
            assert(self.logged() =~= Seq::<u32>::empty());
        }
    }
}

/// Records block `block_no` in the current transaction; a block
/// already recorded is absorbed. Returns whether it was new (the
/// caller then pins its buffer until the commit).
pub fn log_write(log: &mut LogState, block_no: u32) -> (added: bool)
    requires
        old(log).wf(),
        old(log).outstanding > 0,
        old(log).lh.n < LOGSIZE,
    ensures
        final(log).wf(),
        added == !old(log).logged().contains(block_no),
        added ==> final(log).logged() == old(log).logged().push(block_no),
        !added ==> final(log).lh == old(log).lh,
        final(log).logged().contains(block_no),
        final(log).outstanding == old(log).outstanding,
        final(log).committing == old(log).committing,
        final(log).start == old(log).start,
        final(log).initialized == old(log).initialized,
{
    let n: usize = log.lh.n as usize;
    let mut i: usize = 0;
    while i < n
        invariant
            n == old(log).lh.n,
            n < LOGSIZE,
            *log == *old(log),
            log.wf(),
            i <= n,
            forall|j: int| 0 <= j < i ==> log.lh.block@[j] != block_no,
        decreases n - i,
    {
        if log.lh.block[i] == block_no {
            proof {
                assert(log.logged()[i as int] == block_no);
            }
            return false;
        }
        i = i + 1;
    }
    let ghost before = log.logged();
    proof {
        assert forall|j: int| 0 <= j < before.len() implies before[j] != block_no by {
            assert(before[j] == log.lh.block@[j]);
        }
    }
    log.lh.block[n] = block_no;
    log.lh.n = log.lh.n + 1;
    proof {
        assert(log.logged() =~= before.push(block_no));
        assert(log.logged()[n as int] == block_no);
    }
    true
}

/// Log slot that holds entry `i`.
pub open spec fn log_slot(start: int, i: int) -> int {
    start + 1 + i
}

/// The block copies of the commit's first step, or of recovery: entry
/// `i` is copied between log slot `start + 1 + i` and its home block.
pub fn install_plan(log_start: u32, lh: &LogHeader) -> (r: Vec<(u32, u32)>)
    requires
        lh.n <= LOGSIZE,
        log_start + 1 + LOGSIZE <= u32::MAX,
    ensures
        r@.len() == lh.n,
        forall|i: int| 0 <= i < lh.n ==> #[trigger] r@[i] == (log_slot(log_start as int, i) as u32, lh.block@[i]),
{
    let mut v: Vec<(u32, u32)> = Vec::new();
    let n: u32 = lh.n;
    let mut i: u32 = 0;
    while i < n
        invariant
            n == lh.n,
            n <= LOGSIZE,
            log_start + 1 + LOGSIZE <= u32::MAX,
            i <= n,
            v@.len() == i,
            forall|j: int| 0 <= j < i ==> #[trigger] v@[j] == (log_slot(log_start as int, j) as u32, lh.block@[j]),
        decreases n - i,
    {
        v.push((log_start + 1 + i, lh.block[i as usize]));
        i = i + 1;
    }
    v
}

/// The log's entries sit in consecutive blocks right after its header
/// block: entry 0 in `start + 1`, each next one in the next block, none
/// in the header block itself.
pub proof fn law_log_slots(start: int, i: int)
    requires
        0 <= i,
    ensures
        log_slot(start, 0) == start + 1,
        log_slot(start, i + 1) == log_slot(start, i) + 1,
        log_slot(start, i) > start,
{
}

/// Header as stored in the first log block: `n`, then the block
/// numbers, little-endian; the rest zero.
pub open spec fn header_bytes_ok(b: Seq<u8>, lh: LogHeader) -> bool {
    &&& b.len() == BSIZE
    &&& le32(b, 0) == lh.n
    &&& forall|i: int| 0 <= i < lh.n ==> #[trigger] le32(b, 4 + 4 * i) == lh.block@[i]
    &&& forall|k: int| 4 + 4 * lh.n <= k < BSIZE ==> #[trigger] b[k] == 0
}

/// The four bytes at `off` hold `v` least significant byte first.
proof fn lemma_le32_bytes(b: Seq<u8>, off: int, v: int)
    requires
        0 <= off,
        off + 4 <= b.len(),
        le32(b, off) == v,
    ensures
        b[off] == v % 256,
        b[off + 1] == (v / 256) % 256,
        b[off + 2] == (v / 65536) % 256,
        b[off + 3] == v / 16777216,
{
    let (b0, b1, b2, b3) = (b[off] as int, b[off + 1] as int, b[off + 2] as int, b[off + 3] as int);
    assert(v == b0 + 256 * b1 + 65536 * b2 + 16777216 * b3);
    assert(b[off] == v % 256 && b[off + 1] == (v / 256) % 256 && b[off + 2] == (v / 65536) % 256 && b[off + 3] == v
        / 16777216) by (nonlinear_arith)
        requires
            v == b0 + 256 * b1 + 65536 * b2 + 16777216 * b3,
            0 <= b0 < 256,
            0 <= b1 < 256,
            0 <= b2 < 256,
            0 <= b3 < 256,
            b0 == b[off] as int,
            b1 == b[off + 1] as int,
            b2 == b[off + 2] as int,
            b3 == b[off + 3] as int,
    ;
}

/// Layout of the log-header block, byte by byte: the count in bytes
/// 0-3, then block number `i` in bytes `4 + 4i` to `7 + 4i`, each least
/// significant byte first; everything after the last one is zero.
pub proof fn law_header_layout(b: Seq<u8>, lh: LogHeader, i: int)
    requires
        header_bytes_ok(b, lh),
        lh.n <= LOGSIZE,
        0 <= i < lh.n,
    ensures
        b[0] == lh.n % 256 && b[1] == (lh.n / 256) % 256 && b[2] == (lh.n / 65536) % 256 && b[3] == lh.n / 16777216,
        b[4 + 4 * i] == lh.block@[i] % 256,
        b[5 + 4 * i] == (lh.block@[i] / 256) % 256,
        b[6 + 4 * i] == (lh.block@[i] / 65536) % 256,
        b[7 + 4 * i] == lh.block@[i] / 16777216,
        forall|k: int| 4 + 4 * lh.n <= k < 512 ==> b[k] == 0,
{
    lemma_le32_bytes(b, 0, lh.n as int);
    assert(le32(b, 4 + 4 * i) == lh.block@[i]);
    lemma_le32_bytes(b, 4 + 4 * i, lh.block@[i] as int);
}

/// Encodes `lh` into a log-header block.
pub fn write_log_header(lh: &LogHeader) -> (r: Vec<u8>)
    requires
        lh.n <= LOGSIZE,
    ensures
        header_bytes_ok(r@, *lh),
{
    let mut b: Vec<u8> = Vec::new();
    let mut k: usize = 0;
    while k < BSIZE
        invariant
            k <= BSIZE,
            b@.len() == k,
            forall|j: int| 0 <= j < k ==> b@[j] == 0,
        decreases BSIZE - k,
    {
        b.push(0);
        k = k + 1;
    }
    put_u32(&mut b, 0, lh.n);
    let n: usize = lh.n as usize;
    let mut i: usize = 0;
    while i < n
        invariant
            n == lh.n,
            n <= LOGSIZE,
            i <= n,
            b@.len() == BSIZE,
            le32(b@, 0) == lh.n,
            forall|j: int| 0 <= j < i ==> #[trigger] le32(b@, 4 + 4 * j) == lh.block@[j],
            forall|j: int| 4 + 4 * i <= j < BSIZE ==> #[trigger] b@[j] == 0,
        decreases n - i,
    {
        let ghost b0 = b@;
        put_u32(&mut b, 4 + 4 * i, lh.block[i]);
        proof {
            assert forall|j: int| 0 <= j < i + 1 implies #[trigger] le32(b@, 4 + 4 * j) == lh.block@[j] by {
                if j < i {
                    assert(le32(b@, 4 + 4 * j) == le32(b0, 4 + 4 * j));
                }
            }
            assert(le32(b@, 0) == le32(b0, 0));
        }
        i = i + 1;
    }
    b
}

/// Decodes a log-header block; a count above `LOGSIZE` is clamped.
pub fn read_log_header(data: &[u8]) -> (lh: LogHeader)
    requires
        data@.len() == BSIZE,
    ensures
        lh.n == (if le32(data@, 0) > LOGSIZE {
            LOGSIZE as int
        } else {
            le32(data@, 0)
        }),
        forall|i: int| 0 <= i < lh.n ==> #[trigger] lh.block@[i] == le32(data@, 4 + 4 * i),
        forall|i: int| lh.n <= i < LOGSIZE ==> #[trigger] lh.block@[i] == 0,
{
    let n_raw: u32 = get_u32(data, 0);
    let mut lh = LogHeader::zero();
    lh.n = if n_raw > LOGSIZE as u32 {
        LOGSIZE as u32
    } else {
        n_raw
    };
    let n: usize = lh.n as usize;
    let mut i: usize = 0;
    while i < n
        invariant
            n == lh.n,
            n <= LOGSIZE,
            data@.len() == BSIZE,
            i <= n,
            forall|j: int| 0 <= j < i ==> #[trigger] lh.block@[j] == le32(data@, 4 + 4 * j),
            forall|j: int| i <= j < LOGSIZE ==> #[trigger] lh.block@[j] == 0,
        decreases n - i,
    {
        lh.block[i] = get_u32(data, 4 + 4 * i);
        i = i + 1;
    }
    lh
}

/// What a header block holds after writing `lh` is read back as `lh`
/// (its logged entries).
pub proof fn law_header_roundtrip(b: Seq<u8>, lh: LogHeader, back: LogHeader)
    requires
        lh.n <= LOGSIZE,
        header_bytes_ok(b, lh),
        back.n == (if le32(b, 0) > LOGSIZE {
            LOGSIZE as int
        } else {
            le32(b, 0)
        }),
        forall|i: int| 0 <= i < back.n ==> #[trigger] back.block@[i] == le32(b, 4 + 4 * i),
    ensures
        back.n == lh.n,
        forall|i: int| 0 <= i < lh.n ==> #[trigger] back.block@[i] == lh.block@[i],
{
    assert forall|i: int| 0 <= i < lh.n implies #[trigger] back.block@[i] == lh.block@[i] by {
        assert(le32(b, 4 + 4 * i) == lh.block@[i]);
    }
}

} // verus!
