//! Open files: fd-table entries, pipes, AF_UNIX socket pairs and the
//! socket-name registry.
//!
//! An open file description is named by an id (what the fd table and
//! `dup` share); per-fd flags live in the `FdEntry`.

use vstd::prelude::*;

verus! {

pub const PIPE_CAP: usize = 512;
pub const SOCK_BACKLOG_CAP: usize = 16;

/// A pipe: a bounded FIFO of bytes with counts of attached readers and
/// writers.
pub struct PipeInner {
    pub buf: Vec<u8>,
    pub readers: u64,
    pub writers: u64,
}

/// Outcome of offering one byte to a pipe.
#[derive(Clone, Copy, Debug, PartialEq, Eq, Structural)]
pub enum PushResult {
    Pushed,
    /// Full, readers attached: the writer waits.
    Full,
    /// Full and no reader left: the write fails.
    Broken,
}

/// Outcome of taking one byte from a pipe.
#[derive(Clone, Copy, Debug, PartialEq, Eq, Structural)]
pub enum PopResult {
    Byte(u8),
    /// Empty, writers attached: the reader waits.
    Empty,
    /// Empty and no writer left: end of file.
    Eof,
}

impl PipeInner {
    /// A fresh pipe with one reader and one writer.
    pub fn new() -> (r: Self)
        ensures
            r.buf@.len() == 0,
            r.readers == 1,
            r.writers == 1,
    {
        PipeInner { buf: Vec::new(), readers: 1, writers: 1 }
    }

    /// Capacity in bytes.
    pub fn cap(&self) -> (r: usize)
        ensures
            r == PIPE_CAP,
    {
        PIPE_CAP
    }

    /// One write step: the byte goes to the back of the buffer unless
    /// it is full.
    pub fn try_push(&mut self, b: u8) -> (r: PushResult)
        ensures
            old(self).buf@.len() < PIPE_CAP ==> r == PushResult::Pushed && final(self).buf@ == old(self).buf@.push(b),
            old(self).buf@.len() >= PIPE_CAP ==> final(self).buf@ == old(self).buf@ && r == (if old(self).readers
                == 0 {
                PushResult::Broken
            } else {
                PushResult::Full
            }),
            final(self).readers == old(self).readers,
            final(self).writers == old(self).writers,
    {
        if self.buf.len() < PIPE_CAP {
            self.buf.push(b);
            PushResult::Pushed
        } else if self.readers == 0 {
            PushResult::Broken
        } else {
            PushResult::Full
        }
    }

    /// One read step: the oldest byte, if any.
    pub fn try_pop(&mut self) -> (r: PopResult)
        ensures
            old(self).buf@.len() > 0 ==> r == PopResult::Byte(old(self).buf@[0]) && final(self).buf@ == old(
                self,
            ).buf@.drop_first(),
            old(self).buf@.len() == 0 ==> final(self).buf@ == old(self).buf@ && r == (if old(self).writers == 0 {
                PopResult::Eof
            } else {
                PopResult::Empty
            }),
            final(self).readers == old(self).readers,
            final(self).writers == old(self).writers,
    {
        if self.buf.len() > 0 {
            let b = self.buf.remove(0);
            PopResult::Byte(b)
        } else if self.writers == 0 {
            PopResult::Eof
        } else {
            PopResult::Empty
        }
    }
}

impl PipeInner {
    /// A non-blocking `read` of up to `len` bytes into a user buffer of
    /// which the first `room` bytes are writable: bytes come out oldest
    /// first until `len` is reached or the pipe is empty. An empty pipe
    /// gives end of file (0) once no writer is left, else -1. A byte that
    /// lands past `room` is lost and the call fails.
    pub fn read_nonblock(&mut self, len: usize, room: usize) -> (r: (i64, Vec<u8>))
        requires
            len <= i64::MAX,
        ensures
            final(self).readers == old(self).readers,
            final(self).writers == old(self).writers,
            ({
                let b = old(self).buf@;
                let k = if len < b.len() { len as int } else { b.len() as int };
                if len == 0 {
                    r.0 == 0 && r.1@.len() == 0 && final(self).buf@ == b
                } else if b.len() == 0 {
                    r.0 == (if old(self).writers == 0 { 0i64 } else { -1i64 }) && r.1@.len() == 0
                        && final(self).buf@ == b
                } else if room < k {
                    r.0 == -1 && r.1@ == b.take(room as int) && final(self).buf@ == b.skip(room + 1)
                } else {
                    r.0 == k && r.1@ == b.take(k) && final(self).buf@ == b.skip(k)
                }
            }),
    {
        let ghost b = self.buf@;
        let mut out: Vec<u8> = Vec::new();
        let mut n: usize = 0;
        while n < len
            invariant
                n <= len,
                len <= i64::MAX,
                n <= room,
                n <= b.len(),
                out@ == b.take(n as int),
                self.buf@ == b.skip(n as int),
                n > 0 ==> n < b.len(),
                self.readers == old(self).readers,
                self.writers == old(self).writers,
                b == old(self).buf@,
            decreases len - n,
        {
            match self.try_pop() {
                PopResult::Byte(x) => {
                    if n >= room {
                        proof {
                            assert(self.buf@ =~= b.skip(n + 1));
                        }
                        return (-1, out);
                    }
                    out.push(x);
                    n = n + 1;
                    proof {
                        assert(out@ =~= b.take(n as int));
                        assert(self.buf@ =~= b.skip(n as int));
                    }
                    if self.buf.len() == 0 {
                        return (n as i64, out);
                    }
                },
                _ => {
                    if self.writers == 0 {
                        return (n as i64, out);
                    }
                    if n == 0 {
                        return (-1, out);
                    }
                    return (n as i64, out);
                },
            }
        }
        (n as i64, out)
    }

    /// A non-blocking `write` of `len` bytes whose first `data.len()`
    /// could be read from the user buffer (the next one could not):
    /// bytes go in while there is room. Returns the count written, or
    /// -1 when the writer was killed, the user buffer faulted, nothing
    /// fitted, or the pipe is full with no reader left.
    pub fn write_nonblock(&mut self, data: &[u8], len: usize, killed: bool) -> (r: i64)
        requires
            data@.len() <= len <= i64::MAX,
        ensures
            final(self).readers == old(self).readers,
            final(self).writers == old(self).writers,
            ({
                let b = old(self).buf@;
                let room = PIPE_CAP - b.len();
                let avail = data@.len() as int;
                let k = if avail < room { avail } else { room };
                if len == 0 {
                    r == 0 && final(self).buf@ == b
                } else if killed {
                    r == -1 && final(self).buf@ == b
                } else if b.len() >= PIPE_CAP {
                    final(self).buf@ == b && r == -1
                } else {
                    &&& final(self).buf@ == b + data@.take(k)
                    &&& r == (if k == len {
                        len as i64
                    } else if k == avail {
                        -1i64
                    } else if old(self).readers == 0 || k == 0 {
                        -1i64
                    } else {
                        k as i64
                    })
                }
            }),
    {
        let ghost b = self.buf@;
        let mut n: usize = 0;
        while n < len
            invariant
                n <= len,
                data@.len() <= len <= i64::MAX,
                n <= data@.len(),
                killed ==> n == 0,
                b.len() + n <= PIPE_CAP || n == 0,
                self.buf@ == b + data@.take(n as int),
                self.readers == old(self).readers,
                self.writers == old(self).writers,
                b == old(self).buf@,
            decreases len - n,
        {
            if killed {
                return -1;
            }
            if n >= data.len() {
                return -1;
            }
            if self.buf.len() < PIPE_CAP {
                self.buf.push(data[n]);
                n = n + 1;
                proof {
                    assert(self.buf@ =~= b + data@.take(n as int));
                }
            } else {
                if self.readers == 0 {
                    return -1;
                }
                if n == 0 {
                    return -1;
                }
                return n as i64;
            }
        }
        n as i64
    }
}

impl PipeInner {
    /// A read end goes away (its last descriptor closed); blocked writers
    /// are to be woken.
    pub fn close_reader(&mut self)
        requires
            old(self).readers > 0,
        ensures
            final(self).readers == old(self).readers - 1,
            final(self).writers == old(self).writers,
            final(self).buf@ == old(self).buf@,
    {
        self.readers = self.readers - 1;
    }

    /// A write end goes away; blocked readers are to be woken.
    pub fn close_writer(&mut self)
        requires
            old(self).writers > 0,
        ensures
            final(self).writers == old(self).writers - 1,
            final(self).readers == old(self).readers,
            final(self).buf@ == old(self).buf@,
    {
        self.writers = self.writers - 1;
    }
}

/// A connected socket end goes away: it stops reading `rx` and writing
/// `tx`.
pub fn sock_end_close(rx: &mut PipeInner, tx: &mut PipeInner)
    requires
        old(rx).readers > 0,
        old(tx).writers > 0,
    ensures
        final(rx).readers == old(rx).readers - 1 && final(rx).writers == old(rx).writers,
        final(tx).writers == old(tx).writers - 1 && final(tx).readers == old(tx).readers,
        final(rx).buf@ == old(rx).buf@ && final(tx).buf@ == old(tx).buf@,
{
    rx.close_reader();
    tx.close_writer();
}

/// Bytes come out of a pipe in the order they went in: pushing `b`
/// onto a buffer holding `s` and then popping `s.len()` bytes leaves
/// exactly `b`.
pub proof fn law_pipe_fifo(s: Seq<u8>, b: u8)
    ensures
        s.push(b).skip(s.len() as int) == seq![b],
        s.len() > 0 ==> s.push(b)[0] == s[0],
{
    assert(s.push(b).skip(s.len() as int) =~= seq![b]);
}

/// A file descriptor: the open file description it names, plus its
/// own close-on-exec and non-blocking flags.
#[derive(Clone, Copy, Debug, PartialEq, Eq, Structural)]
pub struct FdEntry {
    pub file: u64,
    pub cloexec: bool,
    pub nonblock: bool,
}

impl FdEntry {
    /// A descriptor for `file` with both flags clear.
    pub fn new(file: u64) -> (r: Self)
        ensures
            r == (FdEntry { file, cloexec: false, nonblock: false }),
    {
        FdEntry { file, cloexec: false, nonblock: false }
    }
}

/// One end of a connected stream socket: reads come from pipe `rx`,
/// writes go to pipe `tx`.
#[derive(Clone, Copy, Debug, PartialEq, Eq, Structural)]
pub struct SockEnd {
    pub rx: u64,
    pub tx: u64,
}

/// Two connected ends over two fresh, empty pipes added at the end of
/// the pipe table `pipes` (a pipe's id is its index): what one end
/// sends the other receives.
pub fn socket_conn_pair(pipes: &mut Vec<PipeInner>) -> (r: (SockEnd, SockEnd))
    requires
        old(pipes)@.len() + 2 <= u64::MAX,
    ensures
        ({
            let ab = old(pipes)@.len() as u64;
            let ba = (old(pipes)@.len() + 1) as u64;
            &&& r.0 == (SockEnd { rx: ba, tx: ab })
            &&& r.1 == (SockEnd { rx: ab, tx: ba })
        }),
        r.0.tx == r.1.rx && r.1.tx == r.0.rx && r.0.rx != r.0.tx,
        final(pipes)@.len() == old(pipes)@.len() + 2,
        forall|i: int| 0 <= i < old(pipes)@.len() ==> #[trigger] final(pipes)@[i] == old(pipes)@[i],
        forall|i: int|
            old(pipes)@.len() <= i < final(pipes)@.len() ==> #[trigger] final(pipes)@[i].buf@.len() == 0
                && final(pipes)@[i].readers == 1 && final(pipes)@[i].writers == 1,
{
    let ab: u64 = pipes.len() as u64;
    pipes.push(PipeInner::new());
    pipes.push(PipeInner::new());
    let ba: u64 = ab + 1;
    (SockEnd { rx: ba, tx: ab }, SockEnd { rx: ab, tx: ba })
}

/// A listening socket bound to file-system node `inum`, with the
/// server ends waiting for `accept`.
pub struct Listener {
    pub inum: u32,
    pub backlog: Vec<SockEnd>,
}

/// State of a socket.
#[derive(Clone, Copy, Debug, PartialEq, Eq, Structural)]
pub enum SockState {
    Fresh,
    /// Listening; the id names its `Listener`.
    Listening(u64),
    Connected(SockEnd),
}

/// A socket object.
#[derive(Clone, Copy, Debug, PartialEq, Eq, Structural)]
pub struct Socket {
    pub state: SockState,
}

/// An open file description.
#[derive(Clone, Copy, Debug, PartialEq, Eq, Structural)]
pub enum File {
    Console,
    PipeRead(u64),
    PipeWrite(u64),
    Socket(u64),
    Inode { inum: u32, off: u32, readable: bool, writable: bool, append: bool },
}

/// inum → listener bindings; an entry whose listener is gone is purged
/// on lookup.
pub struct SockRegistry {
    pub entries: Vec<(u32, u64)>,
}

/// Binds listener `l` to `inum`.
pub fn sock_register(reg: &mut SockRegistry, inum: u32, l: u64)
    ensures
        final(reg).entries@ == old(reg).entries@.push((inum, l)),
{
    reg.entries.push((inum, l));
}

/// Entries of `s` whose listener is in `live`, in order.
pub open spec fn live_entries(s: Seq<(u32, u64)>, live: Seq<u64>) -> Seq<(u32, u64)>
    decreases s.len(),
{
    if s.len() == 0 {
        Seq::empty()
    } else {
        let rest = live_entries(s.drop_last(), live);
        if live.contains(s.last().1) {
            rest.push(s.last())
        } else {
            rest
        }
    }
}

/// `r` is what the registry entries `s` give for `inum`: the listener
/// of the first entry for `inum`, or `None` when there is none.
pub open spec fn first_binding(s: Seq<(u32, u64)>, inum: u32, r: Option<u64>) -> bool {
    match r {
        Some(l) => exists|k: int|
            0 <= k < s.len() && #[trigger] s[k] == (inum, l) && forall|j: int| 0 <= j < k ==> (#[trigger] s[j]).0 != inum,
        None => forall|k: int| 0 <= k < s.len() ==> (#[trigger] s[k]).0 != inum,
    }
}

/// Listener bound to `inum`, among the listeners still alive (`live`);
/// dead entries are dropped from the registry.
pub fn sock_lookup(reg: &mut SockRegistry, inum: u32, live: &Vec<u64>) -> (r: Option<u64>)
    ensures
        final(reg).entries@ == live_entries(old(reg).entries@, live@),
        first_binding(final(reg).entries@, inum, r),
{
    let mut kept: Vec<(u32, u64)> = Vec::new();
    let mut found: Option<u64> = None;
    let n: usize = reg.entries.len();
    let mut i: usize = 0;
    while i < n
        invariant
            n == reg.entries@.len(),
            reg.entries@ == old(reg).entries@,
            i <= n,
            kept@ == live_entries(reg.entries@.take(i as int), live@),
            match found {
                Some(l) => exists|k: int|
                    0 <= k < kept@.len() && #[trigger] kept@[k] == (inum, l) && forall|j: int|
                        0 <= j < k ==> (#[trigger] kept@[j]).0 != inum,
                None => forall|k: int| 0 <= k < kept@.len() ==> (#[trigger] kept@[k]).0 != inum,
            },
        decreases n - i,
    {
        let e = reg.entries[i];
        proof {
            assert(reg.entries@.take(i + 1).drop_last() =~= reg.entries@.take(i as int));
        }
        let mut alive = false;
        let mut j: usize = 0;
        while j < live.len()
            invariant
                j <= live@.len(),
                alive == exists|t: int| 0 <= t < j && live@[t] == e.1,
            decreases live@.len() - j,
        {
            if live[j] == e.1 {
                alive = true;
            }
            j = j + 1;
        }
        proof {
            assert(alive == live@.contains(e.1));
        }
        if alive {
            let ghost before = kept@;
            let ghost f0 = found;
            kept.push(e);
            proof {
                assert(forall|j2: int| 0 <= j2 < before.len() ==> kept@[j2] == before[j2]);
            }
            if found.is_none() && e.0 == inum {
                found = Some(e.1);
                proof {
                    assert(kept@[before.len() as int] == (inum, e.1));
                    assert forall|j2: int| 0 <= j2 < before.len() implies (#[trigger] kept@[j2]).0 != inum by {
                        assert(kept@[j2] == before[j2]);
                    }
                }
            } else {
                proof {
                    match f0 {
                        Some(l) => {
                            let k = choose|k: int|
                                0 <= k < before.len() && #[trigger] before[k] == (inum, l) && forall|j2: int|
                                    0 <= j2 < k ==> (#[trigger] before[j2]).0 != inum;
                            assert(kept@[k] == (inum, l));
                            assert forall|j2: int| 0 <= j2 < k implies (#[trigger] kept@[j2]).0 != inum by {
                                assert(kept@[j2] == before[j2]);
                            }
                        },
                        None => {
                            assert forall|k: int| 0 <= k < kept@.len() implies (#[trigger] kept@[k]).0 != inum by {
                                if k < before.len() {
                                    assert(kept@[k] == before[k]);
                                }
                            }
                        },
                    }
                }
            }
        }
        i = i + 1;
    }
    proof {
        assert(reg.entries@.take(n as int) =~= reg.entries@);
    }
    reg.entries = kept;
    found
}

/// An entry survives the purge exactly when its listener is alive.
proof fn lemma_live_entries_mem(s: Seq<(u32, u64)>, live: Seq<u64>, x: (u32, u64))
    ensures
        live_entries(s, live).contains(x) <==> (s.contains(x) && live.contains(x.1)),
    decreases s.len(),
{
    if s.len() > 0 {
        lemma_live_entries_mem(s.drop_last(), live, x);
        let rest = live_entries(s.drop_last(), live);
        assert(s =~= s.drop_last().push(s.last()));
        if s.contains(x) && x != s.last() {
            let k = choose|k: int| 0 <= k < s.len() && s[k] == x;
            assert(s.drop_last()[k] == x);
        }
        if s.drop_last().contains(x) {
            let k = choose|k: int| 0 <= k < s.drop_last().len() && s.drop_last()[k] == x;
            assert(s[k] == x);
        }
        if live.contains(s.last().1) {
            if rest.push(s.last()).contains(x) && x != s.last() {
                let k = choose|k: int| 0 <= k < rest.push(s.last()).len() && rest.push(s.last())[k] == x;
                assert(rest[k] == x);
            }
            if rest.contains(x) {
                let k = choose|k: int| 0 <= k < rest.len() && rest[k] == x;
                assert(rest.push(s.last())[k] == x);
            }
            assert(rest.push(s.last())[rest.len() as int] == s.last());
        }
    }
}

/// A listener registered under `inum` and still alive is what a later
/// lookup of `inum` returns, provided no other listener registered
/// under `inum` before it is still alive.
pub proof fn law_registered_listener_found(entries: Seq<(u32, u64)>, live: Seq<u64>, inum: u32, l: u64, r: Option<u64>)
    requires
        live.contains(l),
        forall|k: int| 0 <= k < entries.len() && (#[trigger] entries[k]).0 == inum ==> !live.contains(entries[k].1),
        first_binding(live_entries(entries.push((inum, l)), live), inum, r),
    ensures
        r == Some(l),
{
    let s = entries.push((inum, l));
    let rest = live_entries(entries, live);
    assert(s.drop_last() =~= entries);
    let f = live_entries(s, live);
    assert(f == rest.push((inum, l)));
    assert forall|k: int| 0 <= k < rest.len() implies (#[trigger] rest[k]).0 != inum by {
        assert(rest.contains(rest[k]));
        lemma_live_entries_mem(entries, live, rest[k]);
        let j = choose|j: int| 0 <= j < entries.len() && entries[j] == rest[k];
        assert(entries[j].0 == inum ==> !live.contains(entries[j].1));
    }
    assert(f[rest.len() as int] == (inum, l));
    match r {
        Some(l2) => {
            let k = choose|k: int|
                0 <= k < f.len() && #[trigger] f[k] == (inum, l2) && forall|j: int| 0 <= j < k ==> (#[trigger] f[j]).0 != inum;
            if k < rest.len() {
                assert(f[k] == rest[k]);
            }
        },
        None => {
            assert(f[rest.len() as int].0 != inum);
        },
    }
}

/// Once a listener is gone, a lookup purges its entry and never
/// returns it.
pub proof fn law_dead_listener_purged(entries: Seq<(u32, u64)>, live: Seq<u64>, inum: u32, l: u64, r: Option<u64>)
    requires
        !live.contains(l),
        first_binding(live_entries(entries, live), inum, r),
    ensures
        r != Some(l),
        !live_entries(entries, live).contains((inum, l)),
{
    lemma_live_entries_mem(entries, live, (inum, l));
    let f = live_entries(entries, live);
    if r == Some(l) {
        let k = choose|k: int|
            0 <= k < f.len() && #[trigger] f[k] == (inum, l) && forall|j: int| 0 <= j < k ==> (#[trigger] f[j]).0 != inum;
        assert(f.contains(f[k]));
    }
}

} // verus!
