//! virtio-net bookkeeping: completed receive buffers waiting for the
//! network stack, the transmit-buffer free bitmap, and the frame layout
//! (every frame starts with a 12-byte `virtio_net_hdr`).

use std::collections::VecDeque;

use vstd::prelude::*;
use vstd::std_specs::bits::axiom_u8_trailing_zeros;

verus! {

pub const NUM: usize = 8;
pub const BUF_LEN: usize = 2048;
pub const NET_HDR_LEN: usize = 12;

pub const VIRTIO_NET_DEVICE_ID: u32 = 1;
/// Feature bit of a device-provided MAC address (feature word 0).
pub const F_NET_MAC: u32 = 5;
/// `VIRTIO_F_VERSION_1`: bit 0 of feature word 1, which a modern device
/// requires the driver to accept.
pub const F_VERSION_1_BIT: u32 = 0;

/// The device at the slot is a virtio (v2) network card.
pub fn net_probe_ok(magic: u32, version: u32, device: u32) -> (r: bool)
    ensures
        r == (magic == crate::driver::virtio_blk::VIRTIO_MAGIC && version == crate::driver::virtio_blk::VIRTIO_VERSION
            && device == VIRTIO_NET_DEVICE_ID),
{
    magic == crate::driver::virtio_blk::VIRTIO_MAGIC && version == crate::driver::virtio_blk::VIRTIO_VERSION && device
        == VIRTIO_NET_DEVICE_ID
}

/// The feature words the driver accepts from the device's words `lo`
/// and `hi`: the MAC feature only (no offloads, no merged receive
/// buffers), and `VERSION_1`.
pub fn net_features(lo: u32, hi: u32) -> (r: (u32, u32))
    ensures
        r == (lo & (1u32 << F_NET_MAC), hi & (1u32 << F_VERSION_1_BIT)),
{
    (lo & (1u32 << F_NET_MAC), hi & (1u32 << F_VERSION_1_BIT))
}

/// A queue of the card can be set up: it holds at least `NUM` entries.
pub fn net_queue_ok(num_max: u32) -> (r: bool)
    ensures
        r == (num_max >= NUM),
{
    num_max as usize >= NUM
}

/// Posting every receive buffer at bring-up, on an available ring whose
/// index is `avail_idx`: the new ring contents (buffer `i` in slot
/// `(avail_idx + i) % NUM`) and the index after the `NUM` postings.
pub fn rx_post_all(avail_idx: u16) -> (r: (Vec<u16>, u16))
    ensures
        r.0@.len() == NUM,
        forall|i: int| 0 <= i < NUM ==> #[trigger] r.0@[(avail_idx + i) % (NUM as int)] == i,
        r.1 == (avail_idx + NUM) % 65536,
{
    let mut ring: Vec<u16> = Vec::new();
    let mut k: usize = 0;
    while k < NUM
        invariant
            k <= NUM,
            ring@.len() == k,
            forall|j: int| 0 <= j < k ==> #[trigger] ring@[j] == 0,
        decreases NUM - k,
    {
        ring.push(0);
        k = k + 1;
    }
    let mut idx: u16 = avail_idx;
    let mut i: u16 = 0;
    while i < NUM as u16
        invariant
            i <= NUM,
            ring@.len() == NUM,
            idx == (avail_idx + i) % 65536,
            forall|j: int| 0 <= j < i ==> #[trigger] ring@[(avail_idx + j) % (NUM as int)] == j,
        decreases NUM - i,
    {
        let slot: usize = (idx % (NUM as u16)) as usize;
        proof {
            assert(slot == (avail_idx + i) % (NUM as int)) by (nonlinear_arith)
                requires
                    idx == (avail_idx + i) % 65536,
                    slot == idx % 8,
                    NUM == 8,
            ;
        }
        let ghost r0 = ring@;
        ring.set(slot, i);
        proof {
            assert forall|j: int| 0 <= j < i + 1 implies #[trigger] ring@[(avail_idx + j) % (NUM as int)] == j by {
                if j < i {
                    assert((avail_idx + j) % 8 != (avail_idx + i) % 8) by (nonlinear_arith)
                        requires
                            0 <= j < i,
                            i < 8,
                    ;
                    assert(ring@[(avail_idx + j) % (NUM as int)] == r0[(avail_idx + j) % (NUM as int)]);
                }
            }
        }
        idx = idx.wrapping_add(1);
        i = i + 1;
    }
    (ring, idx)
}

/// Driver state of the network card.
pub struct NetDev {
    pub present: bool,
    pub rx_used_idx: u16,
    pub tx_used_idx: u16,
    /// Bit `i` set: transmit buffer `i` is free.
    pub tx_free: u8,
    /// Completed receive buffers: (buffer index, length with header).
    pub rx_ready: VecDeque<(u16, u32)>,
}

/// A received frame handed to the stack: buffer `idx`, `len` bytes
/// including the device header.
pub struct NetRxToken {
    pub idx: u16,
    pub len: u32,
}

/// Permission to transmit one frame.
pub struct NetTxToken;

/// Position in a ring of `NUM` entries of the `k`-th completion after
/// index `a` (indices wrap at 2^16).
pub open spec fn ring_pos(a: u16, k: int) -> int {
    (a + k) % 0x10000 % (NUM as int)
}

/// What `k` receive completions after index `a` add to the ready queue.
pub open spec fn rx_completions(ring: Seq<(u32, u32)>, a: u16, k: nat) -> Seq<(u16, u32)> {
    Seq::new(k, |j: int| (ring[ring_pos(a, j)].0 as u16, ring[ring_pos(a, j)].1))
}

/// The transmit buffers that `k` completions after index `a` free.
pub open spec fn tx_completions(ring: Seq<(u32, u32)>, a: u16, k: nat) -> u8
    decreases k,
{
    if k == 0 {
        0u8
    } else {
        tx_completions(ring, a, (k - 1) as nat) | (1u8 << (ring[ring_pos(a, k - 1)].0 as u8))
    }
}

/// Number of completions between the driver's index `a` and the
/// device's index `now`.
pub open spec fn pending(a: u16, now: u16) -> nat {
    (if now >= a {
        now - a
    } else {
        now + 0x10000 - a
    }) as nat
}

/// Whether a network card answered the probe.
pub fn present(dev: &NetDev) -> (r: bool)
    ensures
        r == dev.present,
{
    dev.present
}

impl NetDev {
    /// State before the probe: nothing received, every transmit buffer free.
    pub fn new(present: bool) -> (r: Self)
        ensures
            r.present == present,
            r.rx_used_idx == 0,
            r.tx_used_idx == 0,
            r.tx_free == 0xff,
            r.rx_ready@.len() == 0,
    {
        NetDev { present, rx_used_idx: 0, tx_used_idx: 0, tx_free: 0xff, rx_ready: VecDeque::new() }
    }

    /// Moves the receive completions up to the device's index `now` from
    /// the used ring onto the ready queue.
    pub fn collect_rx(&mut self, now: u16, ring: &[(u32, u32)])
        requires
            ring@.len() == NUM,
        ensures
            final(self).rx_used_idx == now,
            final(self).rx_ready@ == old(self).rx_ready@ + rx_completions(
                ring@,
                old(self).rx_used_idx,
                pending(old(self).rx_used_idx, now),
            ),
            final(self).tx_free == old(self).tx_free,
            final(self).tx_used_idx == old(self).tx_used_idx,
            final(self).present == old(self).present,
    {
        let a: u16 = self.rx_used_idx;
        let n: u16 = now.wrapping_sub(a);
        assert(n == pending(a, now));
        let mut k: u16 = 0;
        while k < n
            invariant
                ring@.len() == NUM,
                k <= n,
                n == pending(a, now),
                self.rx_used_idx == a,
                self.rx_ready@ == old(self).rx_ready@ + rx_completions(ring@, a, k as nat),
                self.tx_free == old(self).tx_free,
                self.tx_used_idx == old(self).tx_used_idx,
                self.present == old(self).present,
            decreases n - k,
        {
            let idx: u16 = a.wrapping_add(k);
            assert(idx == (a + k) % 0x10000);
            let pos: usize = idx as usize % NUM;
            let e: (u32, u32) = ring[pos];
            self.rx_ready.push_back((e.0 as u16, e.1));
            proof {
                assert(rx_completions(ring@, a, (k + 1) as nat) =~= rx_completions(ring@, a, k as nat).push(
                    (e.0 as u16, e.1),
                ));
            }
            k = k + 1;
        }
        self.rx_used_idx = now;
    }

    /// Frees the transmit buffers of the completions up to the device's
    /// index `now`.
    pub fn collect_tx(&mut self, now: u16, ring: &[(u32, u32)])
        requires
            ring@.len() == NUM,
            forall|i: int| 0 <= i < NUM ==> #[trigger] ring@[i].0 < NUM,
        ensures
            final(self).tx_used_idx == now,
            final(self).tx_free == old(self).tx_free | tx_completions(
                ring@,
                old(self).tx_used_idx,
                pending(old(self).tx_used_idx, now),
            ),
            final(self).rx_ready@ == old(self).rx_ready@,
            final(self).rx_used_idx == old(self).rx_used_idx,
            final(self).present == old(self).present,
    {
        let a: u16 = self.tx_used_idx;
        let n: u16 = now.wrapping_sub(a);
        assert(n == pending(a, now));
        let ghost f0: u8 = self.tx_free;
        let mut k: u16 = 0;
        proof {
            assert(f0 | 0u8 == f0) by (bit_vector);
        }
        while k < n
            invariant
                ring@.len() == NUM,
                forall|i: int| 0 <= i < NUM ==> #[trigger] ring@[i].0 < NUM,
                k <= n,
                n == pending(a, now),
                f0 == old(self).tx_free,
                self.tx_used_idx == a,
                self.tx_free == f0 | tx_completions(ring@, a, k as nat),
                self.rx_ready@ == old(self).rx_ready@,
                self.rx_used_idx == old(self).rx_used_idx,
                self.present == old(self).present,
            decreases n - k,
        {
            let idx: u16 = a.wrapping_add(k);
            assert(idx == (a + k) % 0x10000);
            let pos: usize = idx as usize % NUM;
            let e: (u32, u32) = ring[pos];
            assert(e.0 < 8);
            let bit: u8 = 1u8 << (e.0 as u8);
            let ghost prev: u8 = tx_completions(ring@, a, k as nat);
            let old_free: u8 = self.tx_free;
            self.tx_free = old_free | bit;
            proof {
                assert(tx_completions(ring@, a, (k + 1) as nat) == prev | bit);
                assert((f0 | prev) | bit == f0 | (prev | bit)) by (bit_vector);
            }
            k = k + 1;
        }
        self.tx_used_idx = now;
    }

    /// The stack asks for a frame: the oldest ready one, but only while
    /// a transmit buffer is free for a reply; otherwise the frame stays
    /// queued for the next poll.
    pub fn receive(&mut self) -> (r: Option<(NetRxToken, NetTxToken)>)
        ensures
            old(self).rx_ready@.len() > 0 && old(self).tx_free != 0 ==> (r matches Some((rx, _)) && (
            rx.idx, rx.len) == old(self).rx_ready@[0] && final(self).rx_ready@
                == old(self).rx_ready@.drop_first()),
            !(old(self).rx_ready@.len() > 0 && old(self).tx_free != 0) ==> r is None
                && final(self).rx_ready@ == old(self).rx_ready@,
            final(self).tx_free == old(self).tx_free,
            final(self).rx_used_idx == old(self).rx_used_idx,
            final(self).tx_used_idx == old(self).tx_used_idx,
            final(self).present == old(self).present,
    {
        match self.rx_ready.pop_front() {
            None => None,
            Some((idx, len)) => {
                if self.tx_free == 0 {
                    self.rx_ready.push_front((idx, len));
                    proof {
                        assert(self.rx_ready@ =~= old(self).rx_ready@);
                    }
                    return None;
                }
                Some((NetRxToken { idx, len }, NetTxToken))
            },
        }
    }

    /// The stack asks to send: allowed while a transmit buffer is free.
    pub fn transmit(&self) -> (r: Option<NetTxToken>)
        ensures
            r is Some <==> self.tx_free != 0,
    {
        if self.tx_free == 0 {
            return None;
        }
        Some(NetTxToken)
    }

    /// Claims the lowest free transmit buffer.
    pub fn claim_tx(&mut self) -> (r: Option<usize>)
        ensures
            match r {
                Some(i) => {
                    &&& old(self).tx_free != 0
                    &&& i == old(self).tx_free.trailing_zeros()
                    &&& i < NUM
                    &&& (old(self).tx_free >> (i as u8)) & 1u8 == 1u8
                    &&& forall|j: u8| j < i ==> #[trigger] (old(self).tx_free >> j) & 1u8 == 0u8
                    &&& final(self).tx_free == old(self).tx_free & !(1u8 << (i as u8))
                },
                None => old(self).tx_free == 0 && final(self).tx_free == 0,
            },
            final(self).rx_ready@ == old(self).rx_ready@,
            final(self).rx_used_idx == old(self).rx_used_idx,
            final(self).tx_used_idx == old(self).tx_used_idx,
            final(self).present == old(self).present,
    {
        if self.tx_free == 0 {
            return None;
        }
        proof {
            broadcast use axiom_u8_trailing_zeros;
            assert(0 <= self.tx_free.trailing_zeros() < 8);
        }
        let i: u32 = self.tx_free.trailing_zeros();
        let mask: u8 = 1u8 << (i as u8);
        self.tx_free = self.tx_free & !mask;
        Some(i as usize)
    }
}

impl NetRxToken {
    /// Where the frame's payload lies in its buffer: after the device
    /// header, up to its length or the end of the buffer.
    pub fn payload_range(&self) -> (r: (usize, usize))
        requires
            self.len >= NET_HDR_LEN,
        ensures
            r.0 == NET_HDR_LEN,
            r.1 == (if self.len < BUF_LEN {
                self.len as int
            } else {
                BUF_LEN as int
            }),
            r.0 <= r.1 <= BUF_LEN,
    {
        let total: u32 = self.len;
        let end: usize = if total < BUF_LEN as u32 {
            total as usize
        } else {
            BUF_LEN
        };
        (NET_HDR_LEN, end)
    }
}

impl NetTxToken {
    /// Length of the descriptor for a frame of `len` payload bytes: the
    /// zeroed device header goes first.
    pub fn frame_len(&self, len: usize) -> (r: u32)
        requires
            len <= BUF_LEN - NET_HDR_LEN,
        ensures
            r == NET_HDR_LEN + len,
    {
        (NET_HDR_LEN + len) as u32
    }
}

} // verus!
