//! virtio-input keyboard: the cooked stream of 8-byte input events that
//! readers drain.

use vstd::prelude::*;

use crate::wait::WakerList;

verus! {

pub const EVENT_LEN: usize = 8;
/// Cooked-queue cap: 256 events.
pub const COOKED_CAP: usize = 2048;

/// Input device state.
pub struct InputState {
    pub present: bool,
    pub cooked: Vec<u8>,
    pub readers: WakerList,
}

pub fn present(st: &InputState) -> (r: bool)
    ensures
        r == st.present,
{
    st.present
}

/// A completed event of `len` bytes from the device: its first eight
/// bytes join the stream if it is whole and there is room. Returns
/// whether readers are to be woken.
pub fn accept_event(st: &mut InputState, len: u32, ev: &[u8]) -> (woke: bool)
    requires
        ev@.len() == EVENT_LEN,
    ensures
        woke == (len >= EVENT_LEN && old(st).cooked@.len() + EVENT_LEN <= COOKED_CAP),
        woke ==> final(st).cooked@ == old(st).cooked@ + ev@,
        !woke ==> final(st).cooked@ == old(st).cooked@,
        final(st).present == old(st).present,
{
    if len as usize >= EVENT_LEN && st.cooked.len() <= COOKED_CAP - EVENT_LEN {
        let ghost c0 = st.cooked@;
        let mut i: usize = 0;
        while i < EVENT_LEN
            invariant
                i <= EVENT_LEN,
                ev@.len() == EVENT_LEN,
                st.cooked@ == c0 + ev@.take(i as int),
                st.present == old(st).present,
            decreases EVENT_LEN - i,
        {
            st.cooked.push(ev[i]);
            i = i + 1;
            proof {
                assert(st.cooked@ =~= c0 + ev@.take(i as int));
            }
        }
        proof {
            assert(ev@.take(8) =~= ev@);
        }
        true
    } else {
        false
    }
}

/// Pops up to `max` cooked bytes, oldest first.
pub fn read_nonblock(st: &mut InputState, max: usize) -> (r: Vec<u8>)
    ensures
        r@.len() == (if max < old(st).cooked@.len() {
            max as int
        } else {
            old(st).cooked@.len() as int
        }),
        old(st).cooked@ == r@ + final(st).cooked@,
        final(st).present == old(st).present,
{
    let mut out: Vec<u8> = Vec::new();
    while out.len() < max && st.cooked.len() > 0
        invariant
            old(st).cooked@ == out@ + st.cooked@,
            out@.len() <= max,
            st.present == old(st).present,
        decreases st.cooked@.len(),
    {
        let ghost c0 = st.cooked@;
        let b = st.cooked.remove(0);
        out.push(b);
        proof {
            assert(old(st).cooked@ =~= out@ + st.cooked@);
        }
    }
    out
}

/// Unread cooked bytes.
pub fn pending(st: &InputState) -> (r: usize)
    ensures
        r == st.cooked@.len(),
{
    st.cooked.len()
}

/// Parks reader task `w`.
pub fn register_waker(st: &mut InputState, w: u64)
    ensures
        final(st).cooked == old(st).cooked,
        old(st).readers.list@.contains(w) ==> final(st).readers.list@ == old(st).readers.list@,
        !old(st).readers.list@.contains(w) ==> final(st).readers.list@ == old(st).readers.list@.push(w),
{
    st.readers.register(w);
}

} // verus!
