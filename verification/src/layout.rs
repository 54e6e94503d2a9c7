//! On-disk filesystem layout shared by the kernel and the image builder.

use vstd::prelude::*;

use crate::bytes::{get_u16, get_u32, le16, le32, put_u16, put_u32};

verus! {

pub const BSIZE: usize = 512;
pub const FSMAGIC: u32 = 0x10203040;
pub const NINODES: u32 = 200;
pub const NDIRECT: usize = 12;
pub const NINDIRECT: usize = 128;
pub const MAXFILE: u32 = 140;
pub const LOGSIZE: u32 = 30;
pub const DIRSIZ: usize = 14;

pub const T_DIR: u16 = 1;
pub const T_FILE: u16 = 2;
pub const T_DEVICE: u16 = 3;

/// Size in bytes of one on-disk inode.
pub const DINODE_SIZE: usize = 128;
/// Size in bytes of one directory entry.
pub const DIRENT_SIZE: usize = 16;
/// Inodes per block.
pub const IPB: u32 = 4;
/// Bitmap bits per block.
pub const BPB: u32 = 4096;

/// On-disk filesystem superblock; lives at block 1.
#[derive(Clone, Copy, PartialEq, Eq, Structural, Debug)]
pub struct Superblock {
    pub magic: u32,
    pub size: u32,
    pub nblocks: u32,
    pub ninodes: u32,
    pub nlog: u32,
    pub logstart: u32,
    pub inodestart: u32,
    pub bmapstart: u32,
}

impl Superblock {
    /// The all-zero superblock.
    pub fn zero() -> (r: Self)
        ensures
            r.magic == 0 && r.size == 0 && r.nblocks == 0 && r.ninodes == 0,
            r.nlog == 0 && r.logstart == 0 && r.inodestart == 0 && r.bmapstart == 0,
    {
        Superblock {
            magic: 0,
            size: 0,
            nblocks: 0,
            ninodes: 0,
            nlog: 0,
            logstart: 0,
            inodestart: 0,
            bmapstart: 0,
        }
    }
}

/// Block number that holds inode `inum`.
pub open spec fn iblock_spec(inum: u32, sb: Superblock) -> int {
    (inum / IPB) as int + sb.inodestart as int
}

/// Block number containing inode `inum`.
pub fn iblock(inum: u32, sb: &Superblock) -> (r: u32)
    requires
        iblock_spec(inum, *sb) <= u32::MAX,
    ensures
        r == iblock_spec(inum, *sb),
{
    inum / IPB + sb.inodestart
}


/// Superblock fields in on-disk order, as read from `b`.
pub open spec fn superblock_at(b: Seq<u8>) -> Superblock {
    Superblock {
        magic: le32(b, 0) as u32,
        size: le32(b, 4) as u32,
        nblocks: le32(b, 8) as u32,
        ninodes: le32(b, 12) as u32,
        nlog: le32(b, 16) as u32,
        logstart: le32(b, 20) as u32,
        inodestart: le32(b, 24) as u32,
        bmapstart: le32(b, 28) as u32,
    }
}

impl Superblock {
    /// Decodes the superblock stored at the start of `b`.
    pub fn decode(b: &[u8]) -> (r: Self)
        requires
            b@.len() >= 32,
        ensures
            r == superblock_at(b@),
    {
        Superblock {
            magic: get_u32(b, 0),
            size: get_u32(b, 4),
            nblocks: get_u32(b, 8),
            ninodes: get_u32(b, 12),
            nlog: get_u32(b, 16),
            logstart: get_u32(b, 20),
            inodestart: get_u32(b, 24),
            bmapstart: get_u32(b, 28),
        }
    }

    /// Writes the superblock at the start of `b`; the rest of `b` is kept.
    pub fn encode(&self, b: &mut Vec<u8>)
        requires
            old(b)@.len() >= 32,
        ensures
            superblock_at(final(b)@) == *self,
            final(b)@.len() == old(b)@.len(),
            forall|i: int| 32 <= i < old(b)@.len() ==> final(b)@[i] == old(b)@[i],
    {
        put_u32(b, 0, self.magic);
        put_u32(b, 4, self.size);
        put_u32(b, 8, self.nblocks);
        put_u32(b, 12, self.ninodes);
        put_u32(b, 16, self.nlog);
        put_u32(b, 20, self.logstart);
        put_u32(b, 24, self.inodestart);
        put_u32(b, 28, self.bmapstart);
    }
}

/// On-disk inode, 128 bytes: seven `u16` header fields and a reserved
/// `u16`, the size, three timestamps, thirteen block addresses
/// (`NDIRECT` direct plus one indirect) and 44 reserved bytes.
#[derive(Clone, Copy, Debug)]
pub struct DInode {
    pub typ: u16,
    pub major: u16,
    pub minor: u16,
    pub nlink: u16,
    pub mode: u16,
    pub uid: u16,
    pub gid: u16,
    pub size: u32,
    pub atime: u32,
    pub mtime: u32,
    pub ctime: u32,
    pub addrs: [u32; 13],
}

/// The inode stored at byte `off` of `b`.
pub open spec fn dinode_at(b: Seq<u8>, off: int) -> DInode {
    DInode {
        typ: le16(b, off) as u16,
        major: le16(b, off + 2) as u16,
        minor: le16(b, off + 4) as u16,
        nlink: le16(b, off + 6) as u16,
        mode: le16(b, off + 8) as u16,
        uid: le16(b, off + 10) as u16,
        gid: le16(b, off + 12) as u16,
        size: le32(b, off + 16) as u32,
        atime: le32(b, off + 20) as u32,
        mtime: le32(b, off + 24) as u32,
        ctime: le32(b, off + 28) as u32,
        addrs: arbitrary(),
    }
}

/// Address `k` of the inode stored at byte `off` of `b`.
pub open spec fn dinode_addr_at(b: Seq<u8>, off: int, k: int) -> u32 {
    le32(b, off + 32 + 4 * k) as u32
}

/// The inode at `off` of `b` has exactly the fields of `d`.
pub open spec fn dinode_matches(b: Seq<u8>, off: int, d: DInode) -> bool {
    &&& dinode_at(b, off).typ == d.typ
    &&& dinode_at(b, off).major == d.major
    &&& dinode_at(b, off).minor == d.minor
    &&& dinode_at(b, off).nlink == d.nlink
    &&& dinode_at(b, off).mode == d.mode
    &&& dinode_at(b, off).uid == d.uid
    &&& dinode_at(b, off).gid == d.gid
    &&& dinode_at(b, off).size == d.size
    &&& dinode_at(b, off).atime == d.atime
    &&& dinode_at(b, off).mtime == d.mtime
    &&& dinode_at(b, off).ctime == d.ctime
    &&& forall|k: int| 0 <= k < 13 ==> #[trigger] dinode_addr_at(b, off, k) == d.addrs[k]
}

impl DInode {
    /// An unused inode (all fields zero).
    pub fn empty() -> (r: Self)
        ensures
            r.typ == 0 && r.major == 0 && r.minor == 0 && r.nlink == 0,
            r.mode == 0 && r.uid == 0 && r.gid == 0 && r.size == 0,
            r.atime == 0 && r.mtime == 0 && r.ctime == 0,
            forall|k: int| 0 <= k < 13 ==> r.addrs[k] == 0,
    {
        DInode {
            typ: 0,
            major: 0,
            minor: 0,
            nlink: 0,
            mode: 0,
            uid: 0,
            gid: 0,
            size: 0,
            atime: 0,
            mtime: 0,
            ctime: 0,
            addrs: [0u32; 13],
        }
    }

    /// Decodes the inode stored at byte `off` of `b`.
    pub fn decode(b: &[u8], off: usize) -> (r: Self)
        requires
            off + DINODE_SIZE <= b@.len(),
        ensures
            dinode_matches(b@, off as int, r),
    {
        let _len: usize = b.len();
        let mut addrs = [0u32; 13];
        let mut k: usize = 0;
        while k < 13
            invariant
                off + DINODE_SIZE <= b@.len() <= usize::MAX,
                0 <= k <= 13,
                forall|j: int| 0 <= j < k ==> #[trigger] addrs@[j] == dinode_addr_at(b@, off as int, j),
            decreases 13 - k,
        {
            addrs[k] = get_u32(b, off + 32 + 4 * k);
            k = k + 1;
        }
        DInode {
            typ: get_u16(b, off),
            major: get_u16(b, off + 2),
            minor: get_u16(b, off + 4),
            nlink: get_u16(b, off + 6),
            mode: get_u16(b, off + 8),
            uid: get_u16(b, off + 10),
            gid: get_u16(b, off + 12),
            size: get_u32(b, off + 16),
            atime: get_u32(b, off + 20),
            mtime: get_u32(b, off + 24),
            ctime: get_u32(b, off + 28),
            addrs,
        }
    }

    /// Writes the inode at byte `off` of `b`, zeroing its reserved
    /// bytes; bytes outside `[off, off + 128)` are kept.
    pub fn encode(&self, b: &mut Vec<u8>, off: usize)
        requires
            off + DINODE_SIZE <= old(b)@.len(),
        ensures
            dinode_matches(final(b)@, off as int, *self),
            final(b)@.len() == old(b)@.len(),
            forall|i: int|
                0 <= i < old(b)@.len() && !(off <= i < off + DINODE_SIZE) ==> final(b)@[i] == old(b)@[i],
            le16(final(b)@, off + 14) == 0,
            forall|i: int| off + 84 <= i < off + 128 ==> final(b)@[i] == 0,
    {
        let _len: usize = b.len();
        self.encode_header(b, off);
        let ghost h = b@;
        self.encode_addrs(b, off);
        let ghost a = b@;
        zero_range(b, off + 84, off + 128);
        proof {
            lemma_header_frame(h, b@, off as int);
            lemma_addrs_frame(a, b@, off as int);
            assert(header_matches(b@, off as int, *self));
            assert forall|k: int| 0 <= k < 13 implies #[trigger] dinode_addr_at(b@, off as int, k) == self.addrs[k] by {
                assert(dinode_addr_at(a, off as int, k) == self.addrs[k]);
            }
        }
    }

    fn encode_header(&self, b: &mut Vec<u8>, off: usize)
        requires
            off + DINODE_SIZE <= old(b)@.len(),
        ensures
            header_matches(final(b)@, off as int, *self),
            le16(final(b)@, off + 14) == 0,
            final(b)@.len() == old(b)@.len(),
            forall|i: int| 0 <= i < old(b)@.len() && !(off <= i < off + 32) ==> final(b)@[i] == old(b)@[i],
    {
        let _len: usize = b.len();
        put_u16(b, off, self.typ);
        put_u16(b, off + 2, self.major);
        put_u16(b, off + 4, self.minor);
        put_u16(b, off + 6, self.nlink);
        put_u16(b, off + 8, self.mode);
        put_u16(b, off + 10, self.uid);
        put_u16(b, off + 12, self.gid);
        put_u16(b, off + 14, 0);
        put_u32(b, off + 16, self.size);
        put_u32(b, off + 20, self.atime);
        put_u32(b, off + 24, self.mtime);
        put_u32(b, off + 28, self.ctime);
    }

    fn encode_addrs(&self, b: &mut Vec<u8>, off: usize)
        requires
            off + DINODE_SIZE <= old(b)@.len(),
        ensures
            forall|j: int| 0 <= j < 13 ==> #[trigger] dinode_addr_at(final(b)@, off as int, j) == self.addrs[j],
            final(b)@.len() == old(b)@.len(),
            forall|i: int| 0 <= i < old(b)@.len() && !(off + 32 <= i < off + 84) ==> final(b)@[i] == old(b)@[i],
    {
        let _len: usize = b.len();
        let mut k: usize = 0;
        while k < 13
            invariant
                off + DINODE_SIZE <= b@.len() <= usize::MAX,
                b@.len() == old(b)@.len(),
                0 <= k <= 13,
                forall|j: int| 0 <= j < k ==> #[trigger] dinode_addr_at(b@, off as int, j) == self.addrs[j],
                forall|i: int| 0 <= i < b@.len() && !(off + 32 <= i < off + 84) ==> b@[i] == old(b)@[i],
            decreases 13 - k,
        {
            let ghost prev = b@;
            put_u32(b, off + 32 + 4 * k, self.addrs[k]);
            assert forall|j: int| 0 <= j < k implies #[trigger] dinode_addr_at(b@, off as int, j)
                == dinode_addr_at(prev, off as int, j) by {
                assert(b@[off + 32 + 4 * j] == prev[off + 32 + 4 * j]);
                assert(b@[off + 33 + 4 * j] == prev[off + 33 + 4 * j]);
                assert(b@[off + 34 + 4 * j] == prev[off + 34 + 4 * j]);
                assert(b@[off + 35 + 4 * j] == prev[off + 35 + 4 * j]);
            }
            k = k + 1;
        }
    }
}

/// Reading an inode back from bytes that hold a written inode `d` gives
/// `d` again, field for field: what `DInode::decode` returns after
/// `DInode::encode`.
pub proof fn law_dinode_roundtrip(b: Seq<u8>, off: int, d: DInode, r: DInode)
    requires
        dinode_matches(b, off, d),
        dinode_matches(b, off, r),
    ensures
        r.typ == d.typ && r.major == d.major && r.minor == d.minor && r.nlink == d.nlink,
        r.mode == d.mode && r.uid == d.uid && r.gid == d.gid,
        r.size == d.size && r.atime == d.atime && r.mtime == d.mtime && r.ctime == d.ctime,
        r.addrs@ == d.addrs@,
{
    assert forall|k: int| 0 <= k < 13 implies r.addrs@[k] == d.addrs@[k] by {
        assert(dinode_addr_at(b, off, k) == d.addrs[k]);
        assert(dinode_addr_at(b, off, k) == r.addrs[k]);
    }
    assert(r.addrs@ =~= d.addrs@);
}

/// Writing one inode leaves every other inode slot of the buffer as it
/// was: the bytes outside the written slot are those `DInode::encode`
/// keeps.
pub proof fn law_dinode_neighbors(before: Seq<u8>, after: Seq<u8>, off: int, other: int)
    requires
        after.len() == before.len(),
        0 <= other,
        other + DINODE_SIZE <= before.len(),
        other + DINODE_SIZE <= off || off + DINODE_SIZE <= other,
        forall|i: int| 0 <= i < before.len() && !(off <= i < off + DINODE_SIZE) ==> after[i] == before[i],
    ensures
        dinode_at(after, other) == dinode_at(before, other),
        forall|k: int| 0 <= k < 13 ==> #[trigger] dinode_addr_at(after, other, k) == dinode_addr_at(before, other, k),
{
    assert forall|i: int| other <= i < other + DINODE_SIZE implies after[i] == before[i] by {}
    assert forall|k: int| 0 <= k < 13 implies #[trigger] dinode_addr_at(after, other, k) == dinode_addr_at(
        before,
        other,
        k,
    ) by {
        assert(after[other + 32 + 4 * k] == before[other + 32 + 4 * k]);
        assert(after[other + 33 + 4 * k] == before[other + 33 + 4 * k]);
        assert(after[other + 34 + 4 * k] == before[other + 34 + 4 * k]);
        assert(after[other + 35 + 4 * k] == before[other + 35 + 4 * k]);
    }
}

/// The header fields (everything but the addresses) at `off` of `b` are those of `d`.
pub open spec fn header_matches(b: Seq<u8>, off: int, d: DInode) -> bool {
    &&& dinode_at(b, off).typ == d.typ
    &&& dinode_at(b, off).major == d.major
    &&& dinode_at(b, off).minor == d.minor
    &&& dinode_at(b, off).nlink == d.nlink
    &&& dinode_at(b, off).mode == d.mode
    &&& dinode_at(b, off).uid == d.uid
    &&& dinode_at(b, off).gid == d.gid
    &&& dinode_at(b, off).size == d.size
    &&& dinode_at(b, off).atime == d.atime
    &&& dinode_at(b, off).mtime == d.mtime
    &&& dinode_at(b, off).ctime == d.ctime
}

proof fn lemma_header_frame(a: Seq<u8>, b: Seq<u8>, off: int)
    requires
        0 <= off,
        off + 32 <= a.len(),
        a.len() == b.len(),
        forall|i: int| off <= i < off + 32 ==> a[i] == b[i],
    ensures
        dinode_at(a, off).typ == dinode_at(b, off).typ,
        dinode_at(a, off).major == dinode_at(b, off).major,
        dinode_at(a, off).minor == dinode_at(b, off).minor,
        dinode_at(a, off).nlink == dinode_at(b, off).nlink,
        dinode_at(a, off).mode == dinode_at(b, off).mode,
        dinode_at(a, off).uid == dinode_at(b, off).uid,
        dinode_at(a, off).gid == dinode_at(b, off).gid,
        dinode_at(a, off).size == dinode_at(b, off).size,
        dinode_at(a, off).atime == dinode_at(b, off).atime,
        dinode_at(a, off).mtime == dinode_at(b, off).mtime,
        dinode_at(a, off).ctime == dinode_at(b, off).ctime,
        le16(a, off + 14) == le16(b, off + 14),
{
    assert(a[off] == b[off] && a[off + 1] == b[off + 1]);
    assert(a[off + 2] == b[off + 2] && a[off + 3] == b[off + 3]);
    assert(a[off + 4] == b[off + 4] && a[off + 5] == b[off + 5]);
    assert(a[off + 6] == b[off + 6] && a[off + 7] == b[off + 7]);
    assert(a[off + 8] == b[off + 8] && a[off + 9] == b[off + 9]);
    assert(a[off + 10] == b[off + 10] && a[off + 11] == b[off + 11]);
    assert(a[off + 12] == b[off + 12] && a[off + 13] == b[off + 13]);
    assert(a[off + 14] == b[off + 14] && a[off + 15] == b[off + 15]);
    assert(a[off + 16] == b[off + 16] && a[off + 17] == b[off + 17]);
    assert(a[off + 18] == b[off + 18] && a[off + 19] == b[off + 19]);
    assert(a[off + 20] == b[off + 20] && a[off + 21] == b[off + 21]);
    assert(a[off + 22] == b[off + 22] && a[off + 23] == b[off + 23]);
    assert(a[off + 24] == b[off + 24] && a[off + 25] == b[off + 25]);
    assert(a[off + 26] == b[off + 26] && a[off + 27] == b[off + 27]);
    assert(a[off + 28] == b[off + 28] && a[off + 29] == b[off + 29]);
    assert(a[off + 30] == b[off + 30] && a[off + 31] == b[off + 31]);
}

proof fn lemma_addrs_frame(a: Seq<u8>, b: Seq<u8>, off: int)
    requires
        0 <= off,
        off + 84 <= a.len(),
        a.len() == b.len(),
        forall|i: int| off + 32 <= i < off + 84 ==> a[i] == b[i],
    ensures
        forall|j: int| 0 <= j < 13 ==> #[trigger] dinode_addr_at(a, off, j) == dinode_addr_at(b, off, j),
{
    assert forall|j: int| 0 <= j < 13 implies #[trigger] dinode_addr_at(a, off, j) == dinode_addr_at(b, off, j) by {
        assert(a[off + 32 + 4 * j] == b[off + 32 + 4 * j]);
        assert(a[off + 33 + 4 * j] == b[off + 33 + 4 * j]);
        assert(a[off + 34 + 4 * j] == b[off + 34 + 4 * j]);
        assert(a[off + 35 + 4 * j] == b[off + 35 + 4 * j]);
    }
}

/// Sets bytes `[lo, hi)` of `b` to zero.
pub fn zero_range(b: &mut Vec<u8>, lo: usize, hi: usize)
    requires
        lo <= hi <= old(b)@.len(),
    ensures
        final(b)@.len() == old(b)@.len(),
        forall|i: int| lo <= i < hi ==> final(b)@[i] == 0,
        forall|i: int| 0 <= i < old(b)@.len() && !(lo <= i < hi) ==> final(b)@[i] == old(b)@[i],
{
    let mut t: usize = lo;
    while t < hi
        invariant
            lo <= t <= hi <= b@.len(),
            b@.len() == old(b)@.len(),
            forall|i: int| lo <= i < t ==> b@[i] == 0,
            forall|i: int| 0 <= i < b@.len() && !(lo <= i < t) ==> b@[i] == old(b)@[i],
        decreases hi - t,
    {
        b.set(t, 0);
        t = t + 1;
    }
}

/// Directory entry: a 16-bit inode number and a 14-byte name,
/// NUL-padded (not terminated when the name fills all 14 bytes).
#[derive(Clone, Copy, Debug)]
pub struct Dirent {
    pub inum: u16,
    pub name: [u8; 14],
}

/// Byte `i` of the name `nb` as stored in a directory entry: the name's
/// byte, or NUL past its end.
pub open spec fn name_byte(nb: Seq<u8>, i: int) -> u8 {
    if 0 <= i < nb.len() {
        nb[i]
    } else {
        0
    }
}

/// The entry name `stored` equals `nb`, compared up to the first NUL.
pub open spec fn dirent_name_matches_spec(stored: Seq<u8>, nb: Seq<u8>) -> bool {
    &&& nb.len() <= DIRSIZ
    &&& forall|i: int|
        0 <= i < DIRSIZ && (forall|j: int| 0 <= j < i ==> name_byte(nb, j) != 0) ==> stored[i]
            == #[trigger] name_byte(nb, i)
}

/// Length of a stored name: the index of its first NUL, or `DIRSIZ`.
pub open spec fn stored_name_len(stored: Seq<u8>) -> int {
    stored_name_len_from(stored, 0)
}

pub open spec fn stored_name_len_from(stored: Seq<u8>, i: int) -> int
    decreases DIRSIZ - i,
{
    if i >= DIRSIZ || i < 0 {
        DIRSIZ as int
    } else if stored[i] == 0 {
        i
    } else {
        stored_name_len_from(stored, i + 1)
    }
}

impl Dirent {
    /// The empty (unused) entry.
    pub fn empty() -> (r: Self)
        ensures
            r.inum == 0,
            forall|i: int| 0 <= i < 14 ==> r.name[i] == 0,
    {
        Dirent { inum: 0, name: [0u8; 14] }
    }

    /// Builds an entry for `inum` named `nb`, keeping at most `DIRSIZ`
    /// bytes of the name and NUL-padding the rest.
    pub fn with_name(inum: u16, nb: &[u8]) -> (r: Self)
        ensures
            r.inum == inum,
            forall|i: int| 0 <= i < 14 ==> r.name[i] == #[trigger] name_byte(nb@, i),
    {
        let mut name = [0u8; 14];
        let mut i: usize = 0;
        while i < 14
            invariant
                0 <= i <= 14,
                forall|j: int| 0 <= j < i ==> name@[j] == #[trigger] name_byte(nb@, j),
            decreases 14 - i,
        {
            if i < nb.len() {
                name[i] = nb[i];
            } else {
                name[i] = 0;
            }
            i = i + 1;
        }
        Dirent { inum, name }
    }

    /// Decodes the entry stored at byte `off` of `b`.
    pub fn decode(b: &[u8], off: usize) -> (r: Self)
        requires
            off + DIRENT_SIZE <= b@.len(),
        ensures
            r.inum == le16(b@, off as int),
            forall|i: int| 0 <= i < 14 ==> r.name[i] == b@[off + 2 + i],
    {
        let _len: usize = b.len();
        let mut name = [0u8; 14];
        let mut i: usize = 0;
        while i < 14
            invariant
                off + DIRENT_SIZE <= b@.len() <= usize::MAX,
                0 <= i <= 14,
                forall|j: int| 0 <= j < i ==> name@[j] == b@[off + 2 + j],
            decreases 14 - i,
        {
            name[i] = b[off + 2 + i];
            i = i + 1;
        }
        Dirent { inum: get_u16(b, off), name }
    }

    /// Writes the entry at byte `off` of `b`; other bytes are kept.
    pub fn encode(&self, b: &mut Vec<u8>, off: usize)
        requires
            off + DIRENT_SIZE <= old(b)@.len(),
        ensures
            final(b)@.len() == old(b)@.len(),
            le16(final(b)@, off as int) == self.inum,
            forall|i: int| 0 <= i < 14 ==> final(b)@[off + 2 + i] == self.name[i],
            forall|i: int|
                0 <= i < old(b)@.len() && !(off <= i < off + DIRENT_SIZE) ==> final(b)@[i] == old(b)@[i],
    {
        let _len: usize = b.len();
        put_u16(b, off, self.inum);
        let ghost h = b@;
        let mut i: usize = 0;
        while i < 14
            invariant
                off + DIRENT_SIZE <= b@.len() <= usize::MAX,
                b@.len() == old(b)@.len(),
                0 <= i <= 14,
                forall|j: int| 0 <= j < i ==> b@[off + 2 + j] == self.name[j],
                forall|k: int| 0 <= k < b@.len() && !(off + 2 <= k < off + 2 + i) ==> b@[k] == h[k],
            decreases 14 - i,
        {
            b.set(off + 2 + i, self.name[i]);
            i = i + 1;
        }
        assert(b@[off as int] == h[off as int] && b@[off + 1] == h[off + 1]);
    }

    /// Length of the stored name: up to the first NUL, at most `DIRSIZ`.
    pub fn name_len(&self) -> (r: usize)
        ensures
            r == stored_name_len(self.name@),
    {
        let mut i: usize = 0;
        while i < 14
            invariant
                0 <= i <= 14,
                stored_name_len_from(self.name@, i as int) == stored_name_len(self.name@),
            decreases 14 - i,
        {
            if self.name[i] == 0 {
                return i;
            }
            proof {
                assert(stored_name_len_from(self.name@, i as int) == stored_name_len_from(self.name@, i + 1));
            }
            i = i + 1;
        }
        14
    }
}

/// True iff the entry's stored name equals `name` (compared up to the
/// first NUL; a name longer than `DIRSIZ` never matches).
pub fn dirent_name_matches(entry: &Dirent, name: &[u8]) -> (r: bool)
    ensures
        r == dirent_name_matches_spec(entry.name@, name@),
{
    if name.len() > DIRSIZ {
        return false;
    }
    let mut i: usize = 0;
    while i < DIRSIZ
        invariant
            name@.len() <= DIRSIZ,
            0 <= i <= DIRSIZ,
            forall|j: int| 0 <= j < i ==> name_byte(name@, j) != 0,
            forall|j: int| 0 <= j < i ==> entry.name@[j] == #[trigger] name_byte(name@, j),
        decreases DIRSIZ - i,
    {
        let want: u8 = if i < name.len() {
            name[i]
        } else {
            0
        };
        assert(want == name_byte(name@, i as int));
        if entry.name[i] != want {
            assert(!dirent_name_matches_spec(entry.name@, name@)) by {
                assert(forall|j: int| 0 <= j < i ==> name_byte(name@, j) != 0);
            }
            return false;
        }
        if want == 0 {
            assert(dirent_name_matches_spec(entry.name@, name@)) by {
                assert forall|k: int|
                    0 <= k < DIRSIZ && (forall|j: int| 0 <= j < k ==> name_byte(name@, j) != 0) implies entry.name@[k]
                    == #[trigger] name_byte(name@, k) by {
                    if k > i {
                        assert(name_byte(name@, i as int) == 0);
                    }
                }
            }
            return true;
        }
        i = i + 1;
    }
    assert(name@.len() == DIRSIZ) by {
        if name@.len() < DIRSIZ {
            assert(name_byte(name@, name@.len() as int) == 0);
        }
    }
    true
}


/// Byte offset of inode `inum` inside its inode block.
pub open spec fn dinode_off(inum: u32) -> int {
    (inum % IPB) * DINODE_SIZE
}

/// A freshly allocated inode of type `typ`: one link, everything else zero.
pub open spec fn fresh_dinode(d: DInode, typ: u16) -> bool {
    &&& d.typ == typ && d.nlink == 1
    &&& d.major == 0 && d.minor == 0 && d.mode == 0 && d.uid == 0 && d.gid == 0
    &&& d.size == 0 && d.atime == 0 && d.mtime == 0 && d.ctime == 0
    &&& forall|k: int| 0 <= k < 13 ==> d.addrs[k] == 0
}

/// One step of inode allocation on the inode block holding `inum`: a
/// free slot (type 0) is claimed for a fresh inode of type `typ`; a used
/// one leaves the block as it was.
pub fn ialloc_try(block: &mut Vec<u8>, inum: u32, typ: u16) -> (claimed: bool)
    requires
        old(block)@.len() == BSIZE,
    ensures
        claimed == (le16(old(block)@, dinode_off(inum)) == 0),
        final(block)@.len() == old(block)@.len(),
        claimed ==> exists|d: DInode| fresh_dinode(d, typ) && dinode_matches(final(block)@, dinode_off(inum), d),
        claimed ==> forall|i: int|
            0 <= i < old(block)@.len() && !(dinode_off(inum) <= i < dinode_off(inum) + DINODE_SIZE)
                ==> final(block)@[i] == old(block)@[i],
        !claimed ==> final(block)@ == old(block)@,
{
    let off: usize = ((inum % IPB) as usize) * DINODE_SIZE;
    if get_u16(block, off) != 0 {
        return false;
    }
    let mut d: DInode = DInode::empty();
    d.typ = typ;
    d.nlink = 1;
    d.encode(block, off);
    proof {
        assert(fresh_dinode(d, typ));
        assert(dinode_matches(block@, off as int, d));
    }
    true
}


/// Blocks of an image made by `mkfs`.
pub const FSSIZE: u32 = 2048;
/// Blocks holding the inode table.
pub const NINODEBLOCKS: u32 = 50;
/// Blocks holding the free bitmap.
pub const NBMAPBLOCKS: u32 = 1;

/// The superblock `mkfs` writes: boot block and superblock, then the
/// log (header and `LOGSIZE` blocks), the inode table, the bitmap, and
/// the data blocks.
pub fn mkfs_superblock() -> (r: Superblock)
    ensures
        r == (Superblock {
            magic: FSMAGIC,
            size: FSSIZE,
            nblocks: (FSSIZE - (2 + 1 + LOGSIZE + NINODEBLOCKS + NBMAPBLOCKS)) as u32,
            ninodes: NINODES,
            nlog: LOGSIZE,
            logstart: 2,
            inodestart: (2 + 1 + LOGSIZE) as u32,
            bmapstart: (2 + 1 + LOGSIZE + NINODEBLOCKS) as u32,
        }),
        r.bmapstart + NBMAPBLOCKS <= FSSIZE,
{
    let logstart: u32 = 2;
    let inodestart: u32 = logstart + 1 + LOGSIZE;
    let bmapstart: u32 = inodestart + NINODEBLOCKS;
    let datastart: u32 = bmapstart + NBMAPBLOCKS;
    Superblock {
        magic: FSMAGIC,
        size: FSSIZE,
        nblocks: FSSIZE - datastart,
        ninodes: NINODES,
        nlog: LOGSIZE,
        logstart,
        inodestart,
        bmapstart,
    }
}

/// Permission bits a new inode of type `typ` gets.
pub fn default_mode(typ: u16) -> (r: u16)
    ensures
        r == (if typ == T_DIR {
            0o755u16
        } else if typ == T_DEVICE {
            0o666u16
        } else {
            0o644u16
        }),
{
    if typ == T_DIR {
        0o755
    } else if typ == T_FILE {
        0o644
    } else if typ == T_DEVICE {
        0o666
    } else {
        0o644
    }
}

} // verus!
