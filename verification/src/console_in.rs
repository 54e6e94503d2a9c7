//! Console input line discipline: typed characters are edited in a
//! line buffer (backspace, ^U) and released to readers only on a
//! newline or ^D; ^D travels in the cooked stream as an EOF mark.

use vstd::prelude::*;

use crate::wait::WakerList;

verus! {

/// Room for cooked plus edited bytes.
pub const CAP: usize = 256;
/// In-band EOF mark (^D).
pub const EOF_SENTINEL: u8 = 0x04;

/// Console input state.
pub struct ConsIn {
    /// Completed lines and EOF marks, ready for readers.
    pub cooked: Vec<u8>,
    /// The line being edited.
    pub edit: Vec<u8>,
    pub readers: WakerList,
}

/// What the console input does with byte `c` (after CR becomes LF).
pub open spec fn input_char(c: u8) -> u8 {
    if c == 13 {
        10
    } else {
        c
    }
}

/// A printable byte (or tab) that goes into the edit buffer.
pub open spec fn printable(c: u8) -> bool {
    c == 9 || (0x20 <= c < 0x7f)
}

impl ConsIn {
    /// Within capacity, and no reader parked twice.
    pub open spec fn wf(&self) -> bool {
        &&& self.cooked@.len() + self.edit@.len() <= CAP
        &&& self.readers.list@.no_duplicates()
    }

    pub fn new() -> (r: Self)
        ensures
            r.wf(),
            r.cooked@.len() == 0,
            r.edit@.len() == 0,
            r.readers.list@.len() == 0,
    {
        ConsIn { cooked: Vec::new(), edit: Vec::new(), readers: WakerList::new() }
    }
}

/// Bytes echoed to erase one character: back, blank, back.
pub open spec fn rubout_bytes() -> Seq<u8> {
    seq![8u8, 32u8, 8u8]
}

/// The echo for erasing `n` characters: back, blank, back, `n` times.
pub open spec fn rubouts(n: nat) -> Seq<u8>
    decreases n,
{
    if n == 0 {
        Seq::empty()
    } else {
        rubouts((n - 1) as nat) + rubout_bytes()
    }
}

/// One byte `c` through the line discipline, from the cooked bytes
/// `cooked` and edit line `edit` to `cooked2` and `edit2`, echoing
/// `echo` and waking readers when `wake`.
pub open spec fn line_step(
    cooked: Seq<u8>,
    edit: Seq<u8>,
    c: u8,
    cooked2: Seq<u8>,
    edit2: Seq<u8>,
    echo: Seq<u8>,
    wake: bool,
) -> bool {
    let c2 = input_char(c);
    if c2 == 0x15 {
        &&& edit2.len() == 0
        &&& cooked2 == cooked
        &&& echo == rubouts(edit.len())
        &&& !wake
    } else if c2 == 8 || c2 == 0x7f {
        &&& cooked2 == cooked
        &&& (edit.len() > 0 ==> edit2 == edit.drop_last() && echo == rubout_bytes())
        &&& (edit.len() == 0 ==> edit2 == edit && echo.len() == 0)
        &&& !wake
    } else if c2 == EOF_SENTINEL {
        &&& echo.len() == 0
        &&& (cooked.len() + edit.len() + 1 <= CAP ==> cooked2 == cooked + edit + seq![EOF_SENTINEL] && edit2.len()
            == 0 && wake)
        &&& (cooked.len() + edit.len() + 1 > CAP ==> cooked2 == cooked && edit2 == edit && !wake)
    } else if c2 == 10 {
        &&& (cooked.len() + edit.len() + 1 <= CAP ==> cooked2 == cooked + edit + seq![10u8] && edit2.len() == 0
            && wake && echo == seq![10u8])
        &&& (cooked.len() + edit.len() + 1 > CAP ==> cooked2 == cooked && edit2 == edit && !wake && echo.len() == 0)
    } else if printable(c2) {
        &&& cooked2 == cooked
        &&& !wake
        &&& (cooked.len() + edit.len() < CAP ==> edit2 == edit.push(c2) && echo == seq![c2])
        &&& (cooked.len() + edit.len() >= CAP ==> edit2 == edit && echo.len() == 0)
    } else {
        cooked2 == cooked && edit2 == edit && echo.len() == 0 && !wake
    }
}

/// Killing the line (^U) erases it on screen: the echo is back (8),
/// blank (32), back (8) once for each character of the line, and the
/// line is emptied without waking anyone.
pub proof fn law_kill_line_echo(
    cooked: Seq<u8>,
    edit: Seq<u8>,
    cooked2: Seq<u8>,
    edit2: Seq<u8>,
    echo: Seq<u8>,
    wake: bool,
)
    requires
        line_step(cooked, edit, 0x15, cooked2, edit2, echo, wake),
    ensures
        echo.len() == 3 * edit.len(),
        forall|i: int| 0 <= i < echo.len() ==> #[trigger] echo[i] == (if i % 3 == 1 {
            32u8
        } else {
            8u8
        }),
        edit2.len() == 0,
        cooked2 == cooked,
        !wake,
{
    lemma_rubouts(edit.len());
}

/// The echo of `n` rubouts, byte by byte.
proof fn lemma_rubouts(n: nat)
    ensures
        rubouts(n).len() == 3 * n,
        forall|i: int| 0 <= i < 3 * n ==> #[trigger] rubouts(n)[i] == (if i % 3 == 1 {
            32u8
        } else {
            8u8
        }),
    decreases n,
{
    if n > 0 {
        lemma_rubouts((n - 1) as nat);
        let p = rubouts((n - 1) as nat);
        assert forall|i: int| 0 <= i < 3 * n implies #[trigger] rubouts(n)[i] == (if i % 3 == 1 {
            32u8
        } else {
            8u8
        }) by {
            if i < 3 * (n - 1) {
                assert(rubouts(n)[i] == p[i]);
            } else {
                assert(rubouts(n)[i] == rubout_bytes()[i - 3 * (n - 1)]);
                assert(i % 3 == i - 3 * (n - 1));
            }
        }
    }
}

/// Erasing a character (backspace or DEL) on a non-empty line drops its
/// last character and echoes back, blank, back; on an empty line it does
/// nothing.
pub proof fn law_erase_echo(
    cooked: Seq<u8>,
    edit: Seq<u8>,
    c: u8,
    cooked2: Seq<u8>,
    edit2: Seq<u8>,
    echo: Seq<u8>,
    wake: bool,
)
    requires
        c == 8 || c == 0x7f,
        line_step(cooked, edit, c, cooked2, edit2, echo, wake),
    ensures
        edit.len() > 0 ==> edit2 == edit.subrange(0, edit.len() - 1) && echo == seq![8u8, 32u8, 8u8],
        edit.len() == 0 ==> edit2 == edit && echo.len() == 0,
        cooked2 == cooked,
        !wake,
{
}

/// A newline (LF, or CR which becomes LF) completes the line: when it
/// fits, the edited bytes and a LF move to the cooked bytes in order,
/// the line is emptied, LF is echoed and readers are woken; when it does
/// not fit nothing changes. ^D (4) does the same with the EOF mark and
/// echoes nothing.
pub proof fn law_line_completion(
    cooked: Seq<u8>,
    edit: Seq<u8>,
    c: u8,
    cooked2: Seq<u8>,
    edit2: Seq<u8>,
    echo: Seq<u8>,
    wake: bool,
)
    requires
        c == 10 || c == 13 || c == 4,
        line_step(cooked, edit, c, cooked2, edit2, echo, wake),
    ensures
        cooked.len() + edit.len() < CAP ==> {
            &&& cooked2.len() == cooked.len() + edit.len() + 1
            &&& forall|i: int| 0 <= i < cooked.len() ==> cooked2[i] == cooked[i]
            &&& forall|i: int| 0 <= i < edit.len() ==> cooked2[cooked.len() + i] == edit[i]
            &&& cooked2[(cooked.len() + edit.len()) as int] == (if c == 4 {
                4u8
            } else {
                10u8
            })
            &&& edit2.len() == 0
            &&& wake
            &&& echo == (if c == 4 {
                Seq::<u8>::empty()
            } else {
                seq![10u8]
            })
        },
        cooked.len() + edit.len() >= CAP ==> cooked2 == cooked && edit2 == edit && !wake && echo.len() == 0,
{
    if cooked.len() + edit.len() < CAP {
        let t: u8 = if c == 4 { 4u8 } else { 10u8 };
        assert(cooked2 == cooked + edit + seq![t]);
        assert forall|i: int| 0 <= i < edit.len() implies cooked2[cooked.len() + i] == edit[i] by {
            assert((cooked + edit + seq![t])[cooked.len() + i] == edit[i]);
        }
    }
}

/// A printable byte (tab, or 0x20 to 0x7e) is appended to the line and
/// echoed when there is room, else dropped; any other byte with no
/// editing meaning (not CR, LF, ^D, backspace, DEL or ^U) changes
/// nothing and echoes nothing. No such byte wakes a reader or touches
/// the cooked bytes.
pub proof fn law_typing(
    cooked: Seq<u8>,
    edit: Seq<u8>,
    c: u8,
    cooked2: Seq<u8>,
    edit2: Seq<u8>,
    echo: Seq<u8>,
    wake: bool,
)
    requires
        c != 4 && c != 8 && c != 10 && c != 13 && c != 0x15 && c != 0x7f,
        line_step(cooked, edit, c, cooked2, edit2, echo, wake),
    ensures
        cooked2 == cooked,
        !wake,
        (c == 9 || 0x20 <= c <= 0x7e) && cooked.len() + edit.len() < CAP ==> edit2.len() == edit.len() + 1
            && edit2.subrange(0, edit.len() as int) == edit && edit2[edit.len() as int] == c && echo == seq![c],
        !((c == 9 || 0x20 <= c <= 0x7e) && cooked.len() + edit.len() < CAP) ==> edit2 == edit && echo.len() == 0,
{
    if (c == 9 || 0x20 <= c <= 0x7e) && cooked.len() + edit.len() < CAP {
        assert(edit2 == edit.push(c));
        assert(edit2.subrange(0, edit.len() as int) =~= edit);
    }
}

/// Feeds one received byte through the line discipline. Returns the
/// bytes to echo and whether readers are to be woken.
pub fn push(st: &mut ConsIn, c: u8) -> (r: (Vec<u8>, bool))
    requires
        old(st).wf(),
    ensures
        final(st).wf(),
        final(st).readers == old(st).readers,
        line_step(old(st).cooked@, old(st).edit@, c, final(st).cooked@, final(st).edit@, r.0@, r.1),
{
    let c2: u8 = if c == 13 {
        10
    } else {
        c
    };
    let mut echo: Vec<u8> = Vec::new();
    if c2 == 0x15 {
        let ghost e0 = st.edit@;
        while st.edit.len() > 0
            invariant
                st.cooked@ == old(st).cooked@,
                st.readers == old(st).readers,
                st.edit@.len() <= e0.len(),
                e0 == old(st).edit@,
                old(st).wf(),
                echo@ == rubouts((e0.len() - st.edit@.len()) as nat),
            decreases st.edit@.len(),
        {
            let ghost k: nat = (e0.len() - st.edit@.len()) as nat;
            st.edit.pop();
            echo.push(8);
            echo.push(32);
            echo.push(8);
            proof {
                assert(echo@ =~= rubouts(k) + rubout_bytes());
            }
        }
        return (echo, false);
    }
    if c2 == 8 || c2 == 0x7f {
        if st.edit.len() > 0 {
            st.edit.pop();
            echo.push(8);
            echo.push(32);
            echo.push(8);
            proof {
                assert(echo@ =~= rubout_bytes());
            }
        }
        return (echo, false);
    }
    if c2 == EOF_SENTINEL || c2 == 10 {
        if st.cooked.len() + st.edit.len() + 1 <= CAP {
            if c2 == 10 {
                echo.push(10);
            }
            let ghost c0 = st.cooked@;
            let ghost e0 = st.edit@;
            let mut i: usize = 0;
            let n: usize = st.edit.len();
            while i < n
                invariant
                    n == e0.len(),
                    st.readers == old(st).readers,
                    st.edit@ == e0,
                    i <= n,
                    st.cooked@ == c0 + e0.take(i as int),
                    c0.len() + e0.len() + 1 <= CAP,
                decreases n - i,
            {
                let b = st.edit[i];
                st.cooked.push(b);
                i = i + 1;
                proof {
                    assert(st.cooked@ =~= c0 + e0.take(i as int));
                }
            }
            st.cooked.push(c2);
            st.edit.clear();
            proof {
                assert(e0.take(n as int) =~= e0);
                assert(st.cooked@ =~= c0 + e0 + seq![c2]);
                if c2 == 10 {
                    assert(echo@ =~= seq![10u8]);
                }
            }
            return (echo, true);
        }
        return (echo, false);
    }
    if c2 == 9 || (0x20 <= c2 && c2 < 0x7f) {
        if st.cooked.len() + st.edit.len() < CAP {
            st.edit.push(c2);
            echo.push(c2);
            proof {
                assert(echo@ =~= seq![c2]);
            }
        }
        return (echo, false);
    }
    (echo, false)
}

/// Takes the oldest cooked byte.
pub fn try_pop(st: &mut ConsIn) -> (r: Option<u8>)
    requires
        old(st).wf(),
    ensures
        final(st).wf(),
        final(st).edit@ == old(st).edit@,
        final(st).readers == old(st).readers,
        old(st).cooked@.len() == 0 ==> r is None && final(st).cooked@ == old(st).cooked@,
        old(st).cooked@.len() > 0 ==> r == Some(old(st).cooked@[0]) && final(st).cooked@ == old(st).cooked@.drop_first(),
{
    if st.cooked.len() == 0 {
        return None;
    }
    Some(st.cooked.remove(0))
}

/// Puts byte `c` back at the front of the cooked queue.
pub fn unget(st: &mut ConsIn, c: u8)
    ensures
        final(st).cooked@ == seq![c] + old(st).cooked@,
        final(st).edit@ == old(st).edit@,
        final(st).readers == old(st).readers,
{
    st.cooked.insert(0, c);
    proof {
        assert(st.cooked@ =~= seq![c] + old(st).cooked@);
    }
}

/// Unread cooked bytes.
pub fn pending(st: &ConsIn) -> (r: usize)
    ensures
        r == st.cooked@.len(),
{
    st.cooked.len()
}

/// Parks reader task `w`.
pub fn register_waker(st: &mut ConsIn, w: u64)
    ensures
        final(st).cooked == old(st).cooked,
        final(st).edit == old(st).edit,
        old(st).readers.list@.contains(w) ==> final(st).readers.list@ == old(st).readers.list@,
        !old(st).readers.list@.contains(w) ==> final(st).readers.list@ == old(st).readers.list@.push(w),
        old(st).wf() ==> final(st).wf(),
{
    st.readers.register(w);
    proof {
        if old(st).wf() && !old(st).readers.list@.contains(w) {
            let l = old(st).readers.list@;
            assert forall|i: int, j: int| 0 <= i < j < l.push(w).len() implies l.push(w)[i] != l.push(w)[j] by {
                if j == l.len() {
                    assert(l[i] == l.push(w)[i]);
                }
            }
        }
    }
}

/// Takes all parked readers, to be woken.
pub fn wake(st: &mut ConsIn) -> (r: Vec<u64>)
    ensures
        r@ == old(st).readers.list@,
        final(st).readers.list@.len() == 0,
        final(st).cooked == old(st).cooked,
        final(st).edit == old(st).edit,
        old(st).wf() ==> final(st).wf() && r@.no_duplicates(),
{
    st.readers.wake_all()
}

/// A typed line reaches readers only with its newline: pushing the
/// bytes of a line and then a newline appends exactly the line and the
/// newline to the cooked stream.
pub proof fn law_line_release(cooked: Seq<u8>, line: Seq<u8>)
    ensures
        (cooked + line + seq![10u8]).subrange(cooked.len() as int, (cooked.len() + line.len()) as int) == line,
        (cooked + line + seq![10u8]).last() == 10u8,
{
    assert((cooked + line + seq![10u8]).subrange(cooked.len() as int, (cooked.len() + line.len()) as int) =~= line);
}

/// Bytes a line-oriented read of at most `len` bytes takes from the
/// cooked queue `c`: up to and including the first newline, or all of
/// `c`, but no more than `len`.
pub open spec fn line_take(c: Seq<u8>, len: int) -> int
    decreases len,
{
    if len <= 0 || c.len() == 0 {
        0
    } else if c[0] == 10 {
        1
    } else {
        1 + line_take(c.drop_first(), len - 1)
    }
}

proof fn lemma_line_take_bound(c: Seq<u8>, len: int)
    ensures
        0 <= line_take(c, len) <= c.len(),
        len >= 0 ==> line_take(c, len) <= len,
        c.len() > 0 && len > 0 ==> line_take(c, len) >= 1,
    decreases len,
{
    if !(len <= 0 || c.len() == 0 || c[0] == 10) {
        lemma_line_take_bound(c.drop_first(), len - 1);
    }
}

/// A non-blocking console `read` of up to `len` bytes into a user buffer
/// whose first `room` bytes are writable: takes cooked bytes up to the
/// end of a line. Fails (-1) when nothing is ready, or when a byte lands
/// past `room` (that byte is consumed).
pub fn read_nonblock(st: &mut ConsIn, len: usize, room: usize) -> (r: (i64, Vec<u8>))
    requires
        old(st).wf(),
        len <= i64::MAX,
    ensures
        final(st).wf(),
        final(st).edit@ == old(st).edit@,
        ({
            let c = old(st).cooked@;
            let t = line_take(c, len as int);
            if len == 0 {
                r.0 == 0 && r.1@.len() == 0 && final(st).cooked@ == c
            } else if c.len() == 0 {
                r.0 == -1 && r.1@.len() == 0 && final(st).cooked@ == c
            } else if room < t {
                r.0 == -1 && r.1@ == c.take(room as int) && final(st).cooked@ == c.skip(room + 1)
            } else {
                r.0 == t && r.1@ == c.take(t) && final(st).cooked@ == c.skip(t)
            }
        }),
{
    let ghost c = st.cooked@;
    proof {
        lemma_line_take_bound(c, len as int);
        assert(c.skip(0) =~= c);
    }
    let mut out: Vec<u8> = Vec::new();
    let mut n: usize = 0;
    while n < len
        invariant
            st.wf(),
            st.edit@ == old(st).edit@,
            c == old(st).cooked@,
            n <= len <= i64::MAX,
            n <= room,
            n <= c.len(),
            out@ == c.take(n as int),
            st.cooked@ == c.skip(n as int),
            line_take(c, len as int) == n + line_take(c.skip(n as int), len - n),
            0 <= line_take(c, len as int) <= c.len(),
        decreases len - n,
    {
        let ghost s = c.skip(n as int);
        match try_pop(st) {
            Some(b) => {
                proof {
                    lemma_line_take_bound(s.drop_first(), len - n - 1);
                    assert(s.drop_first() =~= c.skip(n + 1));
                    assert(s[0] == b);
                }
                if n >= room {
                    return (-1, out);
                }
                out.push(b);
                n = n + 1;
                proof {
                    assert(out@ =~= c.take(n as int));
                }
                if b == 10 {
                    return (n as i64, out);
                }
            },
            None => {
                if n == 0 {
                    return (-1, out);
                }
                return (n as i64, out);
            },
        }
    }
    (n as i64, out)
}

} // verus!
