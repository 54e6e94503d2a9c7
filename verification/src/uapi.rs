//! User-kernel ABI: signal numbers and their default dispositions,
//! `sigaction` records, `stat` records and flag values.

use vstd::prelude::*;

use crate::bytes::{le16, le32, le64, put_u16, put_u32, put_u64};
use crate::layout::{T_DEVICE, T_DIR, T_FILE};

verus! {

pub const SIGHUP: i32 = 1;
pub const SIGINT: i32 = 2;
pub const SIGQUIT: i32 = 3;
pub const SIGILL: i32 = 4;
pub const SIGABRT: i32 = 6;
pub const SIGKILL: i32 = 9;
pub const SIGUSR1: i32 = 10;
pub const SIGSEGV: i32 = 11;
pub const SIGUSR2: i32 = 12;
pub const SIGPIPE: i32 = 13;
pub const SIGALRM: i32 = 14;
pub const SIGTERM: i32 = 15;
pub const SIGCHLD: i32 = 17;
pub const SIGCONT: i32 = 18;
pub const SIGSTOP: i32 = 19;

/// Handler value: default disposition.
pub const SIG_DFL: u64 = 0;
/// Handler value: ignore.
pub const SIG_IGN: u64 = 1;
pub const SIGSET_SIZE: usize = 32;

pub const SIG_BLOCK: i32 = 0;
pub const SIG_UNBLOCK: i32 = 1;
pub const SIG_SETMASK: i32 = 2;

pub const SEEK_SET: i32 = 0;
pub const SEEK_CUR: i32 = 1;
pub const SEEK_END: i32 = 2;

pub const O_RDONLY: u32 = 0x000;
pub const O_WRONLY: u32 = 0x001;
pub const O_RDWR: u32 = 0x002;
pub const O_CREATE: u32 = 0x200;
pub const O_TRUNC: u32 = 0x400;
pub const O_APPEND: u32 = 0x800;
pub const O_CLOEXEC: u32 = 0x4000;
pub const O_NONBLOCK: u32 = 0x8000;

pub const F_DUPFD: i32 = 0;
pub const F_GETFD: i32 = 1;
pub const F_SETFD: i32 = 2;
pub const F_GETFL: i32 = 3;
pub const F_SETFL: i32 = 4;
pub const F_DUPFD_CLOEXEC: i32 = 1030;
pub const FD_CLOEXEC: i32 = 1;

pub const S_IFMT: u32 = 0o170000;
pub const S_IFDIR: u32 = 0o040000;
pub const S_IFCHR: u32 = 0o020000;
pub const S_IFREG: u32 = 0o100000;

/// Signals whose default disposition terminates the process.
pub open spec fn kills_by_default(sig: i32) -> bool {
    sig == SIGHUP || sig == SIGINT || sig == SIGQUIT || sig == SIGILL || sig == SIGABRT || sig == SIGKILL
        || sig == SIGUSR1 || sig == SIGSEGV || sig == SIGUSR2 || sig == SIGPIPE || sig == SIGALRM || sig
        == SIGTERM
}

/// True if `sig`'s default disposition is to terminate the process;
/// signals ignored by default (CHLD, CONT, ...) give false.
pub fn sig_default_kills(sig: i32) -> (r: bool)
    ensures
        r == kills_by_default(sig),
{
    sig == SIGHUP || sig == SIGINT || sig == SIGQUIT || sig == SIGILL || sig == SIGABRT || sig == SIGKILL
        || sig == SIGUSR1 || sig == SIGSEGV || sig == SIGUSR2 || sig == SIGPIPE || sig == SIGALRM || sig
        == SIGTERM
}

/// Signals this kernel defines: the default-fatal ones and the
/// default-ignored SIGCHLD, SIGCONT and SIGSTOP.
pub open spec fn sig_defined(sig: i32) -> bool {
    kills_by_default(sig) || sig == SIGCHLD || sig == SIGCONT || sig == SIGSTOP
}

/// The signal numbers and their default actions: HUP 1, INT 2, QUIT 3,
/// ILL 4, ABRT 6, KILL 9, USR1 10, SEGV 11, USR2 12, PIPE 13, ALRM 14
/// and TERM 15 terminate the process by default; CHLD 17, CONT 18 and
/// STOP 19 are defined and do not; no other number is a signal here.
pub proof fn law_signal_numbers(sig: i32)
    ensures
        kills_by_default(sig) <==> (1 <= sig <= 4 || sig == 6 || 9 <= sig <= 15),
        sig_defined(sig) <==> (1 <= sig <= 4 || sig == 6 || 9 <= sig <= 15 || 17 <= sig <= 19),
        SIGHUP == 1 && SIGINT == 2 && SIGQUIT == 3 && SIGILL == 4 && SIGABRT == 6 && SIGKILL == 9,
        SIGUSR1 == 10 && SIGSEGV == 11 && SIGUSR2 == 12 && SIGPIPE == 13 && SIGALRM == 14 && SIGTERM == 15,
        SIGCHLD == 17 && SIGCONT == 18 && SIGSTOP == 19,
{
}

/// The values of the ABI's flags and command numbers: `sigprocmask`
/// hows, `lseek` whences, `open` flags, `fcntl` commands and the
/// handler values for the default and ignored dispositions.
pub proof fn law_abi_values()
    ensures
        SIG_BLOCK == 0 && SIG_UNBLOCK == 1 && SIG_SETMASK == 2,
        SEEK_SET == 0 && SEEK_CUR == 1 && SEEK_END == 2,
        O_RDONLY == 0 && O_WRONLY == 1 && O_RDWR == 2 && O_CREATE == 0x200 && O_TRUNC == 0x400 && O_APPEND == 0x800,
        O_CLOEXEC == 0x4000 && O_NONBLOCK == 0x8000,
        F_DUPFD == 0 && F_GETFD == 1 && F_SETFD == 2 && F_GETFL == 3 && F_SETFL == 4 && F_DUPFD_CLOEXEC == 1030,
        FD_CLOEXEC == 1,
        SIG_DFL == 0 && SIG_IGN == 1,
{
}

/// True if `sig` is a signal number this kernel defines.
pub fn sig_known(sig: i32) -> (r: bool)
    ensures
        r == sig_defined(sig),
{
    sig_default_kills(sig) || sig == SIGCHLD || sig == SIGCONT || sig == SIGSTOP
}

/// A signal's disposition: handler entry point (or `SIG_DFL` /
/// `SIG_IGN`), the user-space restorer, and the signals blocked while
/// the handler runs.
#[derive(Clone, Copy, Debug, PartialEq, Eq, Structural)]
pub struct SigAction {
    pub handler: u64,
    pub restorer: u64,
    pub mask: u32,
}

impl SigAction {
    /// The default disposition.
    pub fn default_action() -> (r: Self)
        ensures
            r == (SigAction { handler: SIG_DFL, restorer: 0, mask: 0 }),
    {
        SigAction { handler: SIG_DFL, restorer: 0, mask: 0 }
    }
}

/// User-visible `struct stat` (48 bytes).
#[derive(Clone, Copy, Debug, PartialEq, Eq, Structural)]
pub struct Stat {
    pub dev: i32,
    pub ino: u32,
    pub typ: i16,
    pub nlink: i16,
    pub pad: u32,
    pub size: u64,
    pub mode: u32,
    pub uid: u16,
    pub gid: u16,
    pub atime: u32,
    pub mtime: u32,
    pub ctime: u32,
}

/// Size of the user-visible `struct stat`.
pub const STAT_SIZE: usize = 48;

/// `b` is the C layout of `st`: each field little-endian at its offset,
/// the four tail padding bytes zero.
pub open spec fn stat_layout(b: Seq<u8>, st: Stat) -> bool {
    &&& b.len() == STAT_SIZE
    &&& le32(b, 0) == st.dev as u32
    &&& le32(b, 4) == st.ino
    &&& le16(b, 8) == st.typ as u16
    &&& le16(b, 10) == st.nlink as u16
    &&& le32(b, 12) == st.pad
    &&& le64(b, 16) == st.size
    &&& le32(b, 24) == st.mode
    &&& le16(b, 28) == st.uid
    &&& le16(b, 30) == st.gid
    &&& le32(b, 32) == st.atime
    &&& le32(b, 36) == st.mtime
    &&& le32(b, 40) == st.ctime
    &&& forall|i: int| 44 <= i < 48 ==> b[i] == 0
}

impl Stat {
    /// The record `stat` reports for an inode: its identity, type, link
    /// count and size, and a POSIX mode built from type and permissions.
    pub fn of_inode(
        dev: u32,
        inum: u32,
        typ: u16,
        nlink: u16,
        size: u32,
        perm: u16,
        uid: u16,
        gid: u16,
        times: (u32, u32, u32),
    ) -> (r: Self)
        ensures
            r.dev == dev as i32,
            r.ino == inum,
            r.typ == typ as i16,
            r.nlink == nlink as i16,
            r.pad == 0,
            r.size == size,
            r.mode == kind_bits(typ) | ((perm as u32) & 0o7777),
            r.uid == uid,
            r.gid == gid,
            r.atime == times.0 && r.mtime == times.1 && r.ctime == times.2,
    {
        Stat {
            dev: dev as i32,
            ino: inum,
            typ: typ as i16,
            nlink: nlink as i16,
            pad: 0,
            size: size as u64,
            mode: stat_mode(typ, perm),
            uid,
            gid,
            atime: times.0,
            mtime: times.1,
            ctime: times.2,
        }
    }

    /// The 48 bytes copied out to the user.
    pub fn to_bytes(&self) -> (r: Vec<u8>)
        ensures
            stat_layout(r@, *self),
    {
        let mut b: Vec<u8> = vec![0u8; STAT_SIZE];
        put_u32(&mut b, 0, self.dev as u32);
        put_u32(&mut b, 4, self.ino);
        put_u16(&mut b, 8, self.typ as u16);
        put_u16(&mut b, 10, self.nlink as u16);
        put_u32(&mut b, 12, self.pad);
        put_u64(&mut b, 16, self.size);
        put_u32(&mut b, 24, self.mode);
        put_u16(&mut b, 28, self.uid);
        put_u16(&mut b, 30, self.gid);
        put_u32(&mut b, 32, self.atime);
        put_u32(&mut b, 36, self.mtime);
        put_u32(&mut b, 40, self.ctime);
        b
    }
}

/// File-type bits of `st_mode` for inode type `typ`.
pub open spec fn kind_bits(typ: u16) -> u32 {
    if typ == T_DIR {
        S_IFDIR
    } else if typ == T_FILE {
        S_IFREG
    } else if typ == T_DEVICE {
        S_IFCHR
    } else {
        0
    }
}

/// POSIX `st_mode` from an inode's type and permission bits: the type
/// in the high bits, the low 12 permission bits below.
pub fn stat_mode(typ: u16, perm: u16) -> (r: u32)
    ensures
        r == kind_bits(typ) | ((perm as u32) & 0o7777),
{
    let kind: u32 = if typ == T_DIR {
        S_IFDIR
    } else if typ == T_FILE {
        S_IFREG
    } else if typ == T_DEVICE {
        S_IFCHR
    } else {
        0
    };
    kind | ((perm as u32) & 0o7777)
}

/// Owner / group / other permission check: root may do anything;
/// otherwise the owner's, the group's or everyone's three bits decide,
/// whichever class the caller falls in first.
pub open spec fn access_ok(uid: u32, gid: u32, iuid: u16, igid: u16, mode: u16, want_read: bool, want_write: bool) -> bool {
    uid == 0 || ({
        let bits: u16 = if uid == iuid as u32 {
            (mode >> 6u16) & 7
        } else if gid == igid as u32 {
            (mode >> 3u16) & 7
        } else {
            mode & 7
        };
        (!want_read || bits & 4 != 0) && (!want_write || bits & 2 != 0)
    })
}

/// Permission checks by class: root may do anything; the owner is
/// judged by bits 0o400 (read) and 0o200 (write), a member of the
/// inode's group who is not the owner by 0o040 and 0o020, anyone else by
/// 0o004 and 0o002; asking for both needs both.
pub proof fn law_access_classes(uid: u32, gid: u32, iuid: u16, igid: u16, mode: u16)
    ensures
        uid == 0 ==> access_ok(uid, gid, iuid, igid, mode, true, true),
        access_ok(uid, gid, iuid, igid, mode, false, false),
        access_ok(uid, gid, iuid, igid, mode, true, true) == (access_ok(uid, gid, iuid, igid, mode, true, false)
            && access_ok(uid, gid, iuid, igid, mode, false, true)),
        uid != 0 && uid == iuid ==> access_ok(uid, gid, iuid, igid, mode, true, false) == (mode & 0o400 != 0)
            && access_ok(uid, gid, iuid, igid, mode, false, true) == (mode & 0o200 != 0),
        uid != 0 && uid != iuid && gid == igid ==> access_ok(uid, gid, iuid, igid, mode, true, false) == (mode & 0o040
            != 0) && access_ok(uid, gid, iuid, igid, mode, false, true) == (mode & 0o020 != 0),
        uid != 0 && uid != iuid && gid != igid ==> access_ok(uid, gid, iuid, igid, mode, true, false) == (mode & 0o004
            != 0) && access_ok(uid, gid, iuid, igid, mode, false, true) == (mode & 0o002 != 0),
{
    assert((((mode >> 6u16) & 7) & 4 != 0) == (mode & 0o400 != 0) && (((mode >> 6u16) & 7) & 2 != 0) == (mode & 0o200
        != 0) && (((mode >> 3u16) & 7) & 4 != 0) == (mode & 0o040 != 0) && (((mode >> 3u16) & 7) & 2 != 0) == (mode
        & 0o020 != 0) && ((mode & 7) & 4 != 0) == (mode & 0o004 != 0) && ((mode & 7) & 2 != 0) == (mode & 0o002 != 0))
        by (bit_vector);
}

/// `st_mode`'s type bits: directories 0o040000, regular files 0o100000,
/// devices 0o020000 (inode types 1, 2, 3), nothing for other types.
pub proof fn law_kind_bits(typ: u16)
    ensures
        kind_bits(typ) == (if typ == 1 {
            0o040000u32
        } else if typ == 2 {
            0o100000u32
        } else if typ == 3 {
            0o020000u32
        } else {
            0u32
        }),
{
}

/// The `struct stat` copied to user space, as C lays it out: dev at 0,
/// ino at 4, type at 8, nlink at 10, size at 16, mode at 24, uid at 28,
/// gid at 30, atime, mtime and ctime at 32, 36 and 40, 48 bytes in all.
pub proof fn law_stat_offsets(b: Seq<u8>, st: Stat)
    requires
        stat_layout(b, st),
    ensures
        b.len() == 48,
        le32(b, 0) == st.dev as u32 && le32(b, 4) == st.ino,
        le16(b, 8) == st.typ as u16 && le16(b, 10) == st.nlink as u16,
        le64(b, 16) == st.size && le32(b, 24) == st.mode,
        le16(b, 28) == st.uid && le16(b, 30) == st.gid,
        le32(b, 32) == st.atime && le32(b, 36) == st.mtime && le32(b, 40) == st.ctime,
{
}

/// May a caller with `uid`/`gid` open an inode owned by
/// `iuid`/`igid` with permission bits `mode` for the wanted access?
pub fn check_access(uid: u32, gid: u32, iuid: u16, igid: u16, mode: u16, want_read: bool, want_write: bool) -> (r: bool)
    ensures
        r == access_ok(uid, gid, iuid, igid, mode, want_read, want_write),
{
    if uid == 0 {
        return true;
    }
    let bits: u16 = if uid == iuid as u32 {
        (mode >> 6u16) & 7
    } else if gid == igid as u32 {
        (mode >> 3u16) & 7
    } else {
        mode & 7
    };
    if want_read && (bits & 4) == 0 {
        return false;
    }
    if want_write && (bits & 2) == 0 {
        return false;
    }
    true
}

} // verus!
