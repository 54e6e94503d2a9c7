//! Network-stack decisions: endpoint parsing, interface routing,
//! ephemeral ports, the poll deadline and the stack's clock.

use smoltcp::time::Instant;
use vstd::prelude::*;

use crate::riscv::TIMER_INTERVAL;
use crate::wait::WakerCell;

verus! {

/// smoltcp's clock reading, carried through opaquely.
#[verifier::external_type_specification]
#[verifier::external_body]
pub struct ExInstant(smoltcp::time::Instant);

/// The instant that `smoltcp::time::Instant::from_millis` builds from a
/// millisecond count (it stores `ms * 1000` microseconds).
pub uninterp spec fn instant_at_millis(ms: i64) -> Instant;

/// Calls `smoltcp::time::Instant::from_millis`; the result is the named
/// instant for `ms`. The multiplication by 1000 inside must not overflow.
#[verifier::external_body]
fn instant_from_millis(ms: i64) -> (r: Instant)
    requires
        i64::MIN <= ms * 1000 <= i64::MAX,
    ensures
        r == instant_at_millis(ms),
{
    Instant::from_millis(ms)
}

pub const ASCII_0: u8 = 48;
pub const ASCII_9: u8 = 57;
pub const ASCII_PLUS: u8 = 43;
pub const ASCII_DOT: u8 = 46;
pub const ASCII_COLON: u8 = 58;

/// First local port handed out.
pub const EPHEMERAL_FIRST: u16 = 49152;

pub open spec fn is_digit(b: u8) -> bool {
    ASCII_0 <= b <= ASCII_9
}

pub open spec fn all_digits(s: Seq<u8>) -> bool {
    forall|i: int| 0 <= i < s.len() ==> is_digit(#[trigger] s[i])
}

/// Decimal value of a digit string.
pub open spec fn dec_value(s: Seq<u8>) -> int
    decreases s.len(),
{
    if s.len() == 0 {
        0
    } else {
        dec_value(s.drop_last()) * 10 + (s.last() - ASCII_0)
    }
}

/// The digits of an unsigned number, after an optional leading `+`.
pub open spec fn digits_of(s: Seq<u8>) -> Seq<u8> {
    if s.len() > 0 && s[0] == ASCII_PLUS {
        s.drop_first()
    } else {
        s
    }
}

/// An unsigned decimal no larger than `max`, as `str::parse` reads it
/// for an unsigned integer type: an optional `+`, then one digit or more.
pub open spec fn parse_uint(s: Seq<u8>, max: int) -> Option<int> {
    let d = digits_of(s);
    if d.len() > 0 && all_digits(d) && dec_value(d) <= max {
        Some(dec_value(d))
    } else {
        None
    }
}

/// Index of the first `c` in `s`, or `s.len()` when there is none.
pub open spec fn first_index(s: Seq<u8>, c: u8) -> int
    decreases s.len(),
{
    if s.len() == 0 {
        0
    } else if s[0] == c {
        0
    } else {
        1 + first_index(s.drop_first(), c)
    }
}

/// Index of the last `c` in `s`, or -1 when there is none.
pub open spec fn last_index(s: Seq<u8>, c: u8) -> int
    decreases s.len(),
{
    if s.len() == 0 {
        -1
    } else if s.last() == c {
        s.len() - 1
    } else {
        last_index(s.drop_last(), c)
    }
}

/// Exactly `n` dot-separated fields, each a decimal byte.
pub open spec fn parse_fields(s: Seq<u8>, n: nat) -> Option<Seq<u8>>
    decreases n,
{
    if n == 0 {
        None
    } else {
        let d = first_index(s, ASCII_DOT);
        match parse_uint(s.take(d), 255) {
            None => None,
            Some(v) => if n == 1 {
                if d == s.len() {
                    Some(seq![v as u8])
                } else {
                    None
                }
            } else if d == s.len() {
                None
            } else {
                match parse_fields(s.skip(d + 1), (n - 1) as nat) {
                    Some(r) => Some(seq![v as u8] + r),
                    None => None,
                }
            },
        }
    }
}

/// `"a.b.c.d:port"`, `":port"` or `"port"`: the address (all zero when
/// the host part is empty) and a port that is not 0.
pub open spec fn endpoint_spec(s: Seq<u8>) -> Option<(Seq<u8>, int)> {
    let c = last_index(s, ASCII_COLON);
    let host = if c >= 0 {
        s.take(c)
    } else {
        Seq::<u8>::empty()
    };
    let port = if c >= 0 {
        s.skip(c + 1)
    } else {
        s
    };
    match parse_uint(port, 0xffff) {
        None => None,
        Some(p) => if p == 0 {
            None
        } else if host.len() == 0 {
            Some((seq![0u8, 0u8, 0u8, 0u8], p))
        } else {
            match parse_fields(host, 4) {
                Some(o) => Some((o, p)),
                None => None,
            }
        },
    }
}

proof fn lemma_dec_nonneg(s: Seq<u8>)
    requires
        all_digits(s),
    ensures
        dec_value(s) >= 0,
    decreases s.len(),
{
    if s.len() > 0 {
        lemma_dec_nonneg(s.drop_last());
    }
}

proof fn lemma_dec_mono(s: Seq<u8>, k: int)
    requires
        all_digits(s),
        0 <= k <= s.len(),
    ensures
        dec_value(s.take(k)) <= dec_value(s),
    decreases s.len(),
{
    if k == s.len() {
        assert(s.take(k) =~= s);
    } else {
        lemma_dec_mono(s.drop_last(), k);
        lemma_dec_nonneg(s.drop_last());
        assert(s.drop_last().take(k) =~= s.take(k));
    }
}

proof fn lemma_first_index(s: Seq<u8>, c: u8, d: int)
    requires
        0 <= d <= s.len(),
        forall|j: int| 0 <= j < d ==> s[j] != c,
        d == s.len() || s[d] == c,
    ensures
        first_index(s, c) == d,
    decreases s.len(),
{
    if s.len() > 0 && d > 0 {
        lemma_first_index(s.drop_first(), c, d - 1);
    }
}

proof fn lemma_last_index(s: Seq<u8>, c: u8, r: int)
    requires
        -1 <= r < s.len(),
        forall|j: int| r < j < s.len() ==> s[j] != c,
        r == -1 || s[r] == c,
    ensures
        last_index(s, c) == r,
    decreases s.len(),
{
    if s.len() > 0 && r < s.len() - 1 {
        lemma_last_index(s.drop_last(), c, r);
    }
}

/// Index of the first `c` in `s[lo..hi]`, or `hi`.
fn find_byte(s: &[u8], lo: usize, hi: usize, c: u8) -> (r: usize)
    requires
        lo <= hi <= s@.len(),
    ensures
        lo <= r <= hi,
        r - lo == first_index(s@.subrange(lo as int, hi as int), c),
{
    let mut i: usize = lo;
    while i < hi
        invariant
            lo <= i <= hi,
            hi <= s@.len(),
            forall|j: int| lo <= j < i ==> s@[j] != c,
        ensures
            lo <= i <= hi,
            forall|j: int| lo <= j < i ==> s@[j] != c,
            i == hi || s@[i as int] == c,
        decreases hi - i,
    {
        if s[i] == c {
            break;
        }
        i = i + 1;
    }
    proof {
        lemma_first_index(s@.subrange(lo as int, hi as int), c, i - lo);
    }
    i
}

/// Reads an unsigned decimal no larger than `max` from `s[lo..hi]`.
fn parse_dec(s: &[u8], lo: usize, hi: usize, max: u32) -> (r: Option<u32>)
    requires
        lo <= hi <= s@.len(),
        max <= 0xffff,
    ensures
        match r {
            Some(v) => parse_uint(s@.subrange(lo as int, hi as int), max as int) == Some(v as int),
            None => parse_uint(s@.subrange(lo as int, hi as int), max as int) is None,
        },
{
    let ghost t = s@.subrange(lo as int, hi as int);
    let mut i: usize = lo;
    if i < hi && s[i] == ASCII_PLUS {
        i = i + 1;
    }
    let ghost d = s@.subrange(i as int, hi as int);
    assert(digits_of(t) =~= d);
    if i == hi {
        return None;
    }
    let mut v: u32 = 0;
    let mut j: usize = i;
    while j < hi
        invariant
            i <= j <= hi,
            hi <= s@.len(),
            max <= 0xffff,
            d == s@.subrange(i as int, hi as int),
            t == s@.subrange(lo as int, hi as int),
            digits_of(t) == d,
            d.len() > 0,
            v <= max,
            v == dec_value(s@.subrange(i as int, j as int)),
            all_digits(s@.subrange(i as int, j as int)),
        decreases hi - j,
    {
        let b: u8 = s[j];
        if b < ASCII_0 || b > ASCII_9 {
            proof {
                assert(!is_digit(d[j - i]));
            }
            return None;
        }
        let nv: u32 = v * 10 + (b - ASCII_0) as u32;
        proof {
            let p = s@.subrange(i as int, j + 1);
            assert(p.drop_last() =~= s@.subrange(i as int, j as int));
            assert(all_digits(p));
            assert(dec_value(p) == nv);
            if all_digits(d) {
                assert(d.take(j + 1 - i) =~= p);
                lemma_dec_mono(d, j + 1 - i);
            }
        }
        if nv > max {
            return None;
        }
        v = nv;
        j = j + 1;
    }
    proof {
        assert(s@.subrange(i as int, j as int) =~= d);
    }
    Some(v)
}

/// Parses `"a.b.c.d:port"` (or `":port"` / `"port"` for binds) into an
/// address and a port; `None` on malformed input or port 0.
pub fn parse_endpoint(s: &[u8]) -> (r: Option<([u8; 4], u16)>)
    ensures
        match r {
            Some((a, p)) => endpoint_spec(s@) == Some((a@, p as int)),
            None => endpoint_spec(s@) is None,
        },
{
    let n: usize = s.len();
    let mut c: usize = n;
    while c > 0
        invariant
            c <= n,
            n == s@.len(),
            forall|j: int| c <= j < n ==> s@[j] != ASCII_COLON,
        ensures
            c <= n,
            forall|j: int| c <= j < n ==> s@[j] != ASCII_COLON,
            c == 0 || s@[c - 1] == ASCII_COLON,
        decreases c,
    {
        if s[c - 1] == ASCII_COLON {
            break;
        }
        c = c - 1;
    }
    let has_colon: bool = c > 0;
    proof {
        lemma_last_index(s@, ASCII_COLON, c - 1);
    }
    let (hlo, hhi, plo): (usize, usize, usize) = if has_colon {
        (0, c - 1, c)
    } else {
        (0, 0, 0)
    };
    proof {
        assert(s@.subrange(plo as int, n as int) =~= (if has_colon {
            s@.skip(c as int)
        } else {
            s@
        }));
        assert(s@.subrange(hlo as int, hhi as int) =~= (if has_colon {
            s@.take(c - 1)
        } else {
            Seq::<u8>::empty()
        }));
    }
    let port: u16 = match parse_dec(s, plo, n, 0xffff) {
        None => {
            return None;
        },
        Some(p) => p as u16,
    };
    if port == 0 {
        return None;
    }
    if hhi == hlo {
        return Some(([0u8, 0u8, 0u8, 0u8], port));
    }
    let ghost host = s@.subrange(hlo as int, hhi as int);
    assert(endpoint_spec(s@) == match parse_fields(host, 4) {
        Some(o) => Some((o, port as int)),
        None => None::<(Seq<u8>, int)>,
    });
    let mut oct: [u8; 4] = [0u8; 4];
    let mut k: usize = 0;
    let mut start: usize = hlo;
    loop
        invariant_except_break
            parse_fields(host, 4) == match parse_fields(
                s@.subrange(start as int, hhi as int),
                (4 - k) as nat,
            ) {
                Some(rest) => Some(oct@.take(k as int) + rest),
                None => None::<Seq<u8>>,
            },
        invariant
            hlo <= start <= hhi,
            hhi < n,
            n == s@.len(),
            k <= 4,
            host == s@.subrange(hlo as int, hhi as int),
            endpoint_spec(s@) == match parse_fields(host, 4) {
                Some(o) => Some((o, port as int)),
                None => None::<(Seq<u8>, int)>,
            },
        ensures
            k == 4 ==> parse_fields(host, 4) == Some(oct@),
            k != 4 ==> parse_fields(host, 4) is None,
        decreases hhi - start,
    {
        let ghost t = s@.subrange(start as int, hhi as int);
        let end: usize = find_byte(s, start, hhi, ASCII_DOT);
        let ghost dd = end - start;
        if k >= 4 {
            return None;
        }
        proof {
            assert(t.take(dd) =~= s@.subrange(start as int, end as int));
        }
        let v: u32 = match parse_dec(s, start, end, 255) {
            None => {
                return None;
            },
            Some(v) => v,
        };
        let ghost oct0 = oct@;
        oct[k] = v as u8;
        proof {
            assert(oct@.take(k + 1) =~= oct0.take(k as int).push(v as u8));
            assert(oct0.take(k as int) + (seq![v as u8] + Seq::<u8>::empty()) =~= oct@.take(k + 1));
        }
        k = k + 1;
        if end == hhi {
            proof {
                if k == 4 {
                    assert(oct@.take(4) =~= oct@);
                    assert(oct0.take(3) + seq![v as u8] =~= oct@);
                }
            }
            break;
        }
        proof {
            assert(t.skip(dd + 1) =~= s@.subrange(end + 1, hhi as int));
            assert forall|rest: Seq<u8>| true implies oct0.take(k - 1) + (seq![v as u8] + rest) =~= oct@.take(
                k as int,
            ) + rest by {}
        }
        start = end + 1;
    }
    if k != 4 {
        return None;
    }
    Some((oct, port))
}

/// Whether `addr` is routed through the network card: everything but
/// 127.0.0.0/8.
pub fn is_eth_addr(addr: [u8; 4]) -> (r: bool)
    ensures
        r == (addr@[0] != 127),
{
    addr[0] != 127
}

/// The interface a listener on `addr` goes to: an explicit 127.x address
/// forces loopback, `0.0.0.0` takes the card when there is one, any other
/// address takes the card.
pub fn listen_is_eth(addr: [u8; 4], eth_present: bool) -> (r: bool)
    ensures
        r == (if addr@[0] == 127 {
            false
        } else if addr@ == seq![0u8, 0u8, 0u8, 0u8] {
            eth_present
        } else {
            true
        }),
{
    if addr[0] == 127 {
        false
    } else if addr[0] == 0 && addr[1] == 0 && addr[2] == 0 && addr[3] == 0 {
        assert(addr@ =~= seq![0u8, 0u8, 0u8, 0u8]);
        eth_present
    } else {
        true
    }
}

/// Hands out the next ephemeral local port (49152..=65535): the
/// counter's value, or 49152 if the counter lies below the range; the
/// counter moves on by one and goes back to 49152 after 65535.
pub fn ephemeral_port(next: &mut u16) -> (p: u16)
    ensures
        EPHEMERAL_FIRST <= p <= 0xffff,
        p == (if *old(next) < EPHEMERAL_FIRST {
            EPHEMERAL_FIRST
        } else {
            *old(next)
        }),
        *final(next) == (if p == 0xffff {
            EPHEMERAL_FIRST
        } else {
            (p + 1) as u16
        }),
        EPHEMERAL_FIRST <= *final(next),
{
    let p: u16 = if *next < EPHEMERAL_FIRST {
        EPHEMERAL_FIRST
    } else {
        *next
    };
    *next = if p == 0xffff {
        EPHEMERAL_FIRST
    } else {
        p + 1
    };
    p
}

/// Wakes the network task; returns the task that was parked.
pub fn kick(cell: &mut WakerCell) -> (r: Option<u64>)
    ensures
        r == old(cell).slot,
        final(cell).slot is None,
{
    cell.wake()
}

/// Milliseconds of the stack's clock at timer reading `ticks`
/// (`TIMER_INTERVAL / 100` ticks to the millisecond).
pub fn millis_of_ticks(ticks: u64) -> (r: i64)
    ensures
        r == ticks / (TIMER_INTERVAL / 100),
        0 <= r <= 1844674407370955,
{
    let q: u64 = ticks / (TIMER_INTERVAL / 100);
    assert(q <= 1844674407370955) by (nonlinear_arith)
        requires
            q == ticks / 10000,
            ticks <= 0xffff_ffff_ffff_ffff,
    ;
    q as i64
}

/// The stack's clock at timer reading `ticks`.
pub fn now_instant(ticks: u64) -> (r: Instant)
    ensures
        r == instant_at_millis((ticks / (TIMER_INTERVAL / 100)) as i64),
{
    let ms: i64 = millis_of_ticks(ticks);
    assert(ms * 1000 <= i64::MAX) by (nonlinear_arith)
        requires
            0 <= ms <= 1844674407370955,
    ;
    instant_from_millis(ms)
}

/// The sooner of the delays two interfaces ask for; `None` (no
/// deadline) only when neither asks for one.
pub fn earliest_delay(a: Option<u64>, b: Option<u64>) -> (r: Option<u64>)
    ensures
        r == match (a, b) {
            (Some(x), Some(y)) => Some(if x <= y {
                x
            } else {
                y
            }),
            (Some(x), None) => Some(x),
            (None, y) => y,
        },
{
    match (a, b) {
        (Some(x), Some(y)) => Some(if x <= y {
            x
        } else {
            y
        }),
        (Some(x), None) => Some(x),
        (None, y) => y,
    }
}

/// When the network task polls again after `now`: after the delay the
/// stack asked for (at least one millisecond), and never later than a
/// fifth of a timer interval.
pub fn net_deadline(now: u64, delay_ms: Option<u64>) -> (r: u64)
    requires
        now + TIMER_INTERVAL / 5 <= u64::MAX,
        delay_ms matches Some(ms) ==> now + (if ms > 1 {
            ms as int
        } else {
            1
        }) * (TIMER_INTERVAL / 100) <= u64::MAX,
    ensures
        r == match delay_ms {
            Some(ms) => {
                let d = now + (if ms > 1 {
                    ms as int
                } else {
                    1
                }) * (TIMER_INTERVAL / 100);
                if d < now + TIMER_INTERVAL / 5 {
                    d
                } else {
                    now + TIMER_INTERVAL / 5
                }
            },
            None => now + TIMER_INTERVAL / 5,
        },
{
    let cap: u64 = now + TIMER_INTERVAL / 5;
    match delay_ms {
        Some(ms) => {
            let m: u64 = if ms > 1 {
                ms
            } else {
                1
            };
            let d: u64 = now + m * (TIMER_INTERVAL / 100);
            if d < cap {
                d
            } else {
                cap
            }
        },
        None => cap,
    }
}

} // verus!
