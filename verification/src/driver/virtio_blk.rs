//! virtio-blk: device probe checks, feature negotiation and the
//! descriptor allocator.

use vstd::prelude::*;

verus! {

pub const SECTOR_SIZE: usize = 512;
/// Descriptors in the queue.
pub const NUM: usize = 8;
pub const VIRTIO_MAGIC: u32 = 0x7472_6976;
pub const VIRTIO_VERSION: u32 = 2;
pub const VIRTIO_BLK_DEVICE_ID: u32 = 2;

pub const STATUS_ACKNOWLEDGE: u32 = 1;
pub const STATUS_DRIVER: u32 = 2;
pub const STATUS_DRIVER_OK: u32 = 4;
pub const STATUS_FEATURES_OK: u32 = 8;

/// Feature bits this driver turns off: RO, SCSI, CONFIG_WCE, MQ,
/// ANY_LAYOUT, RING_INDIRECT, RING_EVENT_IDX.
pub const UNSUPPORTED_FEATURES: u32 = 0x3800_18a0;

/// Why a disk request failed.
#[derive(Debug, Clone, Copy, PartialEq, Eq, Structural)]
pub enum DiskError {
    NoFreeDescriptor,
    Status(u8),
}

/// The device at the slot is a virtio (v2) block device.
pub fn probe_ok(magic: u32, version: u32, device: u32) -> (r: bool)
    ensures
        r == (magic == VIRTIO_MAGIC && version == VIRTIO_VERSION && device == VIRTIO_BLK_DEVICE_ID),
{
    magic == VIRTIO_MAGIC && version == VIRTIO_VERSION && device == VIRTIO_BLK_DEVICE_ID
}

/// Features the driver accepts: the device's, without the unsupported
/// ones.
pub fn negotiate_features(device_features: u32) -> (r: u32)
    ensures
        r == device_features & !UNSUPPORTED_FEATURES,
{
    let mut f = device_features;
    f = f & !(1u32 << 5u32);
    f = f & !(1u32 << 7u32);
    f = f & !(1u32 << 11u32);
    f = f & !(1u32 << 12u32);
    f = f & !(1u32 << 27u32);
    f = f & !(1u32 << 29u32);
    f = f & !(1u32 << 28u32);
    proof {
        let d = device_features;
        assert((((((((d & !(1u32 << 5u32)) & !(1u32 << 7u32)) & !(1u32 << 11u32)) & !(1u32 << 12u32)) & !(1u32
            << 27u32)) & !(1u32 << 29u32)) & !(1u32 << 28u32)) == d & !0x3800_18a0u32) by (bit_vector);
    }
    f
}

/// Queue 0 can be set up: not yet ready and large enough.
pub fn queue_ok(ready: u32, num_max: u32) -> (r: bool)
    ensures
        r == (ready == 0 && num_max >= NUM),
{
    ready == 0 && num_max as usize >= NUM
}

/// The driver's status register values during bring-up, in order.
pub fn status_sequence() -> (r: [u32; 5])
    ensures
        r@ == seq![0u32, 1u32, 3u32, 11u32, 15u32],
{
    let s = [0u32, 1u32, 3u32, 11u32, 15u32];
    proof {
        assert(s@ =~= seq![0u32, 1u32, 3u32, 11u32, 15u32]);
    }
    s
}

/// Low and high halves of a 64-bit queue address.
pub fn split_addr(pa: u64) -> (r: (u32, u32))
    ensures
        r.0 == pa % 0x1_0000_0000,
        r.1 == pa / 0x1_0000_0000,
{
    ((pa % 0x1_0000_0000) as u32, (pa / 0x1_0000_0000) as u32)
}

/// Number of free descriptors among the first `n`.
pub open spec fn count_free(s: Seq<bool>, n: int) -> int
    decreases n,
{
    if n <= 0 {
        0
    } else {
        count_free(s, n - 1) + (if s[n - 1] {
            1int
        } else {
            0
        })
    }
}

proof fn lemma_count_gap(s: Seq<bool>, lo: int, hi: int)
    requires
        0 <= lo <= hi,
        forall|t: int| lo <= t < hi ==> !#[trigger] s[t],
    ensures
        count_free(s, hi) == count_free(s, lo),
    decreases hi - lo,
{
    if hi > lo {
        lemma_count_gap(s, lo, hi - 1);
    }
}

/// The first free descriptor at or after `start`, or `NUM` when there is none.
fn next_free(free: &[bool; NUM], start: usize) -> (r: usize)
    requires
        start <= NUM,
    ensures
        start <= r <= NUM,
        r < NUM ==> free@[r as int],
        forall|t: int| start <= t < r ==> !#[trigger] free@[t],
{
    let mut j: usize = start;
    while j < NUM
        invariant
            start <= j <= NUM,
            forall|t: int| start <= t < j ==> !#[trigger] free@[t],
        decreases NUM - j,
    {
        if free[j] {
            return j;
        }
        j = j + 1;
    }
    j
}

/// Takes three free descriptors (the lowest free ones, in order) for a
/// request, or none at all when fewer than three are free.
pub fn alloc_three(free: &mut [bool; NUM]) -> (r: Option<[usize; 3]>)
    ensures
        match r {
            Some(idx) => {
                &&& idx@[0] < idx@[1] < idx@[2] < NUM
                &&& old(free)@[idx@[0] as int] && old(free)@[idx@[1] as int] && old(free)@[idx@[2] as int]
                &&& forall|t: int| 0 <= t < idx@[2] && t != idx@[0] && t != idx@[1] ==> !#[trigger] old(free)@[t]
                &&& final(free)@ == old(free)@.update(idx@[0] as int, false).update(idx@[1] as int, false).update(
                    idx@[2] as int,
                    false,
                )
            },
            None => final(free)@ == old(free)@ && count_free(old(free)@, NUM as int) < 3,
        },
{
    let a: usize = next_free(free, 0);
    if a == NUM {
        proof {
            lemma_count_gap(free@, 0, NUM as int);
        }
        return None;
    }
    let b: usize = next_free(free, a + 1);
    if b == NUM {
        proof {
            lemma_count_gap(free@, 0, a as int);
            lemma_count_gap(free@, a + 1, NUM as int);
        }
        return None;
    }
    let c: usize = next_free(free, b + 1);
    if c == NUM {
        proof {
            lemma_count_gap(free@, 0, a as int);
            lemma_count_gap(free@, a + 1, b as int);
            lemma_count_gap(free@, b + 1, NUM as int);
        }
        return None;
    }
    free[a] = false;
    free[b] = false;
    free[c] = false;
    Some([a, b, c])
}


pub const DESC_F_NEXT: u16 = 1;
pub const DESC_F_WRITE: u16 = 2;
pub const VIRTIO_BLK_T_IN: u32 = 0;
pub const VIRTIO_BLK_T_OUT: u32 = 1;
/// Size of a block request header (type, reserved, sector).
pub const REQ_LEN: u32 = 16;

/// A virtqueue descriptor.
#[derive(Clone, Copy, Debug, PartialEq, Eq, Structural)]
pub struct VirtqDesc {
    pub addr: u64,
    pub len: u32,
    pub flags: u16,
    pub next: u16,
}

impl VirtqDesc {
    pub fn zero() -> (r: Self)
        ensures
            r == (VirtqDesc { addr: 0, len: 0, flags: 0, next: 0 }),
    {
        VirtqDesc { addr: 0, len: 0, flags: 0, next: 0 }
    }
}

/// The three descriptors of a block request on descriptors `idx`: the
/// request header, the sector buffer (device-writable for a read), and
/// the status byte. Also returns the request type for the header.
pub fn build_chain(idx: [usize; 3], write: bool, req_pa: u64, buf_pa: u64, status_pa: u64) -> (r: (
    u32,
    [VirtqDesc; 3],
))
    requires
        idx@[1] < NUM && idx@[2] < NUM,
    ensures
        r.0 == (if write {
            VIRTIO_BLK_T_OUT
        } else {
            VIRTIO_BLK_T_IN
        }),
        r.1@[0] == (VirtqDesc { addr: req_pa, len: REQ_LEN, flags: DESC_F_NEXT, next: idx@[1] as u16 }),
        r.1@[1] == (VirtqDesc {
            addr: buf_pa,
            len: SECTOR_SIZE as u32,
            flags: if write {
                DESC_F_NEXT
            } else {
                DESC_F_NEXT | DESC_F_WRITE
            },
            next: idx@[2] as u16,
        }),
        r.1@[2] == (VirtqDesc { addr: status_pa, len: 1, flags: DESC_F_WRITE, next: 0 }),
{
    let typ: u32 = if write {
        VIRTIO_BLK_T_OUT
    } else {
        VIRTIO_BLK_T_IN
    };
    let head = VirtqDesc { addr: req_pa, len: REQ_LEN, flags: DESC_F_NEXT, next: idx[1] as u16 };
    let data_flags: u16 = if write {
        DESC_F_NEXT
    } else {
        DESC_F_NEXT | DESC_F_WRITE
    };
    let data = VirtqDesc { addr: buf_pa, len: SECTOR_SIZE as u32, flags: data_flags, next: idx[2] as u16 };
    let status = VirtqDesc { addr: status_pa, len: 1, flags: DESC_F_WRITE, next: 0 };
    (typ, [head, data, status])
}

/// The descriptors met following `next` from descriptor `i` while
/// `DESC_F_NEXT` is set, for at most `fuel` steps.
pub open spec fn chain_path(descs: Seq<VirtqDesc>, i: int, fuel: nat) -> Seq<int>
    decreases fuel,
{
    if descs[i].flags & DESC_F_NEXT == 0 || fuel == 0 {
        seq![i]
    } else {
        seq![i] + chain_path(descs, descs[i].next as int, (fuel - 1) as nat)
    }
}

/// The chain from `head` ends within `NUM` steps, stays inside the
/// table and meets no descriptor twice.
pub open spec fn chain_wf(descs: Seq<VirtqDesc>, head: int) -> bool {
    let p = chain_path(descs, head, NUM as nat);
    &&& descs.len() == NUM
    &&& descs[p.last()].flags & DESC_F_NEXT == 0
    &&& p.no_duplicates()
    &&& forall|k: int| 0 <= k < p.len() ==> 0 <= #[trigger] p[k] < NUM
}

proof fn lemma_path_step(descs: Seq<VirtqDesc>, i: int, fuel: nat)
    ensures
        chain_path(descs, i, fuel).len() >= 1,
        chain_path(descs, i, fuel)[0] == i,
        chain_path(descs, i, fuel).len() > 1 ==> fuel > 0 && descs[i].flags & DESC_F_NEXT != 0
            && chain_path(descs, i, fuel).drop_first() == chain_path(descs, descs[i].next as int, (fuel - 1) as nat),
        chain_path(descs, i, fuel).len() == 1 ==> descs[i].flags & DESC_F_NEXT == 0 || fuel == 0,
    decreases fuel,
{
    if !(descs[i].flags & DESC_F_NEXT == 0 || fuel == 0) {
        lemma_path_step(descs, descs[i].next as int, (fuel - 1) as nat);
        assert(chain_path(descs, i, fuel).drop_first() =~= chain_path(descs, descs[i].next as int, (fuel - 1) as nat));
    }
}

/// Returns the descriptors of a finished request to the free pool:
/// each one on the chain from `head` is zeroed and marked free.
pub fn free_chain(free: &mut [bool; NUM], descs: &mut [VirtqDesc; NUM], head: usize)
    requires
        chain_wf(old(descs)@, head as int),
    ensures
        forall|j: int|
            0 <= j < NUM ==> #[trigger] final(free)@[j] == (old(free)@[j] || chain_path(
                old(descs)@,
                head as int,
                NUM as nat,
            ).contains(j)),
        forall|j: int|
            0 <= j < NUM ==> #[trigger] final(descs)@[j] == (if chain_path(old(descs)@, head as int, NUM as nat).contains(j) {
                VirtqDesc { addr: 0, len: 0, flags: 0, next: 0 }
            } else {
                old(descs)@[j]
            }),
{
    let ghost d0 = descs@;
    let ghost p = chain_path(d0, head as int, NUM as nat);
    let mut i: usize = head;
    let ghost mut k: int = 0;
    proof {
        lemma_path_step(d0, head as int, NUM as nat);
    }
    loop
        invariant_except_break
            0 <= k < p.len(),
            p[k] == i,
            p.skip(k) == chain_path(d0, i as int, (NUM - k) as nat),
            forall|j: int|
                0 <= j < NUM ==> #[trigger] free@[j] == (old(free)@[j] || p.take(k).contains(j)),
            forall|j: int|
                0 <= j < NUM ==> #[trigger] descs@[j] == (if p.take(k).contains(j) {
                    VirtqDesc { addr: 0, len: 0, flags: 0, next: 0 }
                } else {
                    d0[j]
                }),
        invariant
            d0 == old(descs)@,
            p == chain_path(d0, head as int, NUM as nat),
            chain_wf(d0, head as int),
            0 <= k < p.len(),
            i < NUM,
            k <= NUM,
        ensures
            forall|j: int|
                0 <= j < NUM ==> #[trigger] free@[j] == (old(free)@[j] || p.contains(j)),
            forall|j: int|
                0 <= j < NUM ==> #[trigger] descs@[j] == (if p.contains(j) {
                    VirtqDesc { addr: 0, len: 0, flags: 0, next: 0 }
                } else {
                    d0[j]
                }),
        decreases p.len() - k,
    {
        proof {
            assert(!p.take(k).contains(i as int)) by {
                if p.take(k).contains(i as int) {
                    let m = choose|m: int| 0 <= m < k && p.take(k)[m] == i;
                    assert(p[m] == p[k]);
                }
            }
            lemma_path_step(d0, i as int, (NUM - k) as nat);
            assert(p.skip(k)[0] == p[k]);
        }
        let d: VirtqDesc = descs[i];
        assert(d == d0[i as int]);
        descs[i] = VirtqDesc::zero();
        free[i] = true;
        proof {
            assert(p.take(k + 1) =~= p.take(k).push(i as int));
            let t1 = p.take(k + 1);
            let t0 = p.take(k);
            assert forall|j: int| #[trigger] t1.contains(j) == (t0.contains(j) || j == i) by {
                if t1.contains(j) {
                    let m = choose|m: int| 0 <= m < t1.len() && t1[m] == j;
                    if m < k {
                        assert(t0[m] == j);
                    }
                }
                if t0.contains(j) {
                    let m = choose|m: int| 0 <= m < t0.len() && t0[m] == j;
                    assert(t1[m] == j);
                }
                if j == i {
                    assert(t1[k] == j);
                }
            }
        }
        if d.flags & DESC_F_NEXT == 0 {
            proof {
                assert(p.skip(k).len() == 1);
                assert(p.take(k + 1) =~= p);
            }
            break;
        }
        proof {
            if p.skip(k).len() == 1 {
                assert(NUM - k == 0 || d.flags & DESC_F_NEXT == 0);
                assert(p.last() == p[k]);
                assert(false);
            }
            assert(p.skip(k + 1) =~= p.skip(k).drop_first());
            lemma_path_step(d0, d.next as int, (NUM - k - 1) as nat);
            assert(p.skip(k + 1)[0] == p[k + 1]);
            assert(p[k + 1] == d.next);
            assert(0 <= p[k + 1] < NUM);
        }
        i = d.next as usize;
        proof {
            k = k + 1;
        }
    }
}

/// The descriptor heads the device reports done between the driver's
/// used index `a` and the device's `now`, from the used ring's ids.
pub open spec fn completed_heads(ring: Seq<u32>, a: u16, k: nat) -> Seq<u32> {
    Seq::new(k, |j: int| ring[crate::driver::virtio_net::ring_pos(a, j)])
}

/// Takes the completions up to the device's used index `now`: the
/// request heads, in order, whose waiters are to be marked done and
/// woken. The driver's index moves to `now`.
pub fn collect_completions(used_idx: &mut u16, now: u16, ring: &[u32]) -> (r: Vec<u32>)
    requires
        ring@.len() == NUM,
    ensures
        *final(used_idx) == now,
        r@ == completed_heads(ring@, *old(used_idx), crate::driver::virtio_net::pending(*old(used_idx), now)),
{
    let a: u16 = *used_idx;
    let n: u16 = now.wrapping_sub(a);
    assert(n == crate::driver::virtio_net::pending(a, now));
    let mut out: Vec<u32> = Vec::new();
    let mut k: u16 = 0;
    while k < n
        invariant
            ring@.len() == NUM,
            k <= n,
            out@ == completed_heads(ring@, a, k as nat),
        decreases n - k,
    {
        let idx: u16 = a.wrapping_add(k);
        assert(idx == (a + k) % 0x10000);
        let id: u32 = ring[idx as usize % NUM];
        out.push(id);
        proof {
            assert(out@ =~= completed_heads(ring@, a, (k + 1) as nat));
        }
        k = k + 1;
    }
    *used_idx = now;
    out
}

/// Outcome of a finished request from its status byte.
pub fn finish_status(status: u8) -> (r: Result<(), DiskError>)
    ensures
        status == 0 ==> r is Ok,
        status != 0 ==> r == Err::<(), DiskError>(DiskError::Status(status)),
{
    if status == 0 {
        Ok(())
    } else {
        Err(DiskError::Status(status))
    }
}

/// A request chain as `build_chain` lays it out on descriptors `idx`
/// (three distinct ones, as `alloc_three` hands out) is exactly those
/// three descriptors in order, so `free_chain` returns precisely what
/// `alloc_three` took.
pub proof fn law_request_chain(descs: Seq<VirtqDesc>, idx: Seq<usize>, write: bool)
    requires
        descs.len() == NUM,
        idx.len() == 3,
        idx[0] < idx[1] < idx[2] < NUM,
        descs[idx[0] as int].flags == DESC_F_NEXT && descs[idx[0] as int].next == idx[1] as u16,
        descs[idx[1] as int].flags == (if write {
            DESC_F_NEXT
        } else {
            DESC_F_NEXT | DESC_F_WRITE
        }) && descs[idx[1] as int].next == idx[2] as u16,
        descs[idx[2] as int].flags == DESC_F_WRITE,
    ensures
        chain_wf(descs, idx[0] as int),
        chain_path(descs, idx[0] as int, NUM as nat) == seq![idx[0] as int, idx[1] as int, idx[2] as int],
{
    assert(DESC_F_NEXT & DESC_F_NEXT != 0) by (bit_vector);
    assert((DESC_F_NEXT | DESC_F_WRITE) & DESC_F_NEXT != 0) by (bit_vector);
    assert(DESC_F_WRITE & DESC_F_NEXT == 0) by (bit_vector);
    let p2 = chain_path(descs, idx[2] as int, (NUM - 2) as nat);
    assert(p2 == seq![idx[2] as int]);
    let p1 = chain_path(descs, idx[1] as int, (NUM - 1) as nat);
    assert(p1 == seq![idx[1] as int] + p2);
    let p0 = chain_path(descs, idx[0] as int, NUM as nat);
    assert(p0 == seq![idx[0] as int] + p1);
    assert(p0 =~= seq![idx[0] as int, idx[1] as int, idx[2] as int]);
}

} // verus!
