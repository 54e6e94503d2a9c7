//! ramfb framebuffer: the fw_cfg probe decisions, the big-endian
//! configuration blob handed to QEMU, and pixel drawing.

use vstd::prelude::*;

use crate::bytes::{be16, be32, put_be_u32, put_be_u64};

verus! {

pub const WIDTH: usize = 640;
pub const HEIGHT: usize = 480;
pub const BPP: usize = 4;
pub const FB_BYTES: usize = 1_228_800;
pub const FB_PIXELS: usize = 307_200;
/// DRM_FORMAT_XRGB8888.
pub const DRM_FORMAT_XRGB8888: u32 = 0x3432_5258;
/// Size of the configuration blob.
pub const RAMFB_CFG_SIZE: usize = 28;

/// Framebuffer state.
pub struct Ramfb {
    pub present: bool,
    pub stride: u32,
    /// XRGB8888 pixels, row by row.
    pub fb: Vec<u32>,
}

pub fn present(r: &Ramfb) -> (b: bool)
    ensures
        b == r.present,
{
    r.present
}

/// `(width, height, stride)`.
pub fn dims(r: &Ramfb) -> (d: (usize, usize, usize))
    ensures
        d == (WIDTH, HEIGHT, r.stride as usize),
{
    (WIDTH, HEIGHT, r.stride as usize)
}

/// Framebuffer size in bytes.
pub fn size_bytes() -> (r: usize)
    ensures
        r == WIDTH * HEIGHT * BPP,
{
    FB_BYTES
}

/// Fills every pixel with `color` (nothing when no framebuffer is up).
pub fn clear(r: &mut Ramfb, color: u32)
    ensures
        final(r).present == old(r).present,
        final(r).stride == old(r).stride,
        final(r).fb@.len() == old(r).fb@.len(),
        old(r).present ==> forall|i: int| 0 <= i < final(r).fb@.len() ==> #[trigger] final(r).fb@[i] == color,
        !old(r).present ==> final(r).fb@ == old(r).fb@,
{
    if !r.present {
        return;
    }
    let n: usize = r.fb.len();
    let mut i: usize = 0;
    while i < n
        invariant
            n == r.fb@.len(),
            n == old(r).fb@.len(),
            r.present == old(r).present,
            r.stride == old(r).stride,
            i <= n,
            forall|j: int| 0 <= j < i ==> #[trigger] r.fb@[j] == color,
        decreases n - i,
    {
        r.fb.set(i, color);
        i = i + 1;
    }
}

/// Color of pixel `(x, y)` in the boot test pattern: red, green, blue
/// and white quadrants.
pub open spec fn test_pixel(x: int, y: int) -> u32 {
    if y < HEIGHT / 2 {
        if x < WIDTH / 2 {
            0x00ff_0000
        } else {
            0x0000_ff00
        }
    } else {
        if x < WIDTH / 2 {
            0x0000_00ff
        } else {
            0x00ff_ffff
        }
    }
}

/// Draws the test pattern (when a full framebuffer is up).
pub fn draw_test_pattern(r: &mut Ramfb)
    ensures
        final(r).present == old(r).present,
        final(r).fb@.len() == old(r).fb@.len(),
        old(r).present && old(r).fb@.len() == FB_PIXELS ==> forall|k: int|
            0 <= k < FB_PIXELS ==> #[trigger] final(r).fb@[k] == test_pixel(k % 640, k / 640),
        !(old(r).present && old(r).fb@.len() == FB_PIXELS) ==> final(r).fb@ == old(r).fb@,
{
    if !r.present || r.fb.len() != FB_PIXELS {
        return;
    }
    let mut k: usize = 0;
    while k < FB_PIXELS
        invariant
            r.fb@.len() == FB_PIXELS,
            r.present == old(r).present,
            k <= FB_PIXELS,
            forall|j: int| 0 <= j < k ==> #[trigger] r.fb@[j] == test_pixel(j % 640, j / 640),
        decreases FB_PIXELS - k,
    {
        let x: usize = k % 640;
        let top: bool = k < 153_600;
        proof {
            assert((k < 153_600) == ((k as int) / 640 < 240)) by (nonlinear_arith);
        }
        let px: u32 = if top {
            if x < 320 {
                0x00ff_0000
            } else {
                0x0000_ff00
            }
        } else {
            if x < 320 {
                0x0000_00ff
            } else {
                0x00ff_ffff
            }
        };
        r.fb.set(k, px);
        k = k + 1;
    }
}

/// fw_cfg looks usable: signature "QEMU" and the DMA feature bit.
pub fn probe_ok(sig: &[u8], features: u32) -> (r: bool)
    requires
        sig@.len() == 4,
    ensures
        r == (sig@ == seq![0x51u8, 0x45u8, 0x4du8, 0x55u8] && features & 2 != 0),
{
    let s = sig[0] == 0x51 && sig[1] == 0x45 && sig[2] == 0x4d && sig[3] == 0x55;
    proof {
        if s {
            assert(sig@ =~= seq![0x51u8, 0x45u8, 0x4du8, 0x55u8]);
        }
    }
    s && features & 2 != 0
}

/// The configuration blob: framebuffer address, fourcc, flags, width,
/// height and stride, all big-endian.
pub fn ramfb_cfg_bytes(fb_pa: u64) -> (r: Vec<u8>)
    ensures
        r@.len() == RAMFB_CFG_SIZE,
        crate::bytes::be64(r@, 0) == fb_pa,
        be32(r@, 8) == DRM_FORMAT_XRGB8888,
        be32(r@, 12) == 0,
        be32(r@, 16) == WIDTH,
        be32(r@, 20) == HEIGHT,
        be32(r@, 24) == WIDTH * BPP,
{
    let mut b: Vec<u8> = Vec::new();
    let mut i: usize = 0;
    while i < RAMFB_CFG_SIZE
        invariant
            i <= RAMFB_CFG_SIZE,
            b@.len() == i,
        decreases RAMFB_CFG_SIZE - i,
    {
        b.push(0);
        i = i + 1;
    }
    put_be_u64(&mut b, 0, fb_pa);
    let ghost b0 = b@;
    put_be_u32(&mut b, 8, DRM_FORMAT_XRGB8888);
    let ghost b1 = b@;
    put_be_u32(&mut b, 12, 0);
    let ghost b2 = b@;
    put_be_u32(&mut b, 16, 640);
    let ghost b3 = b@;
    put_be_u32(&mut b, 20, 480);
    let ghost b4 = b@;
    put_be_u32(&mut b, 24, 2560);
    proof {
        assert(crate::bytes::be64(b@, 0) == crate::bytes::be64(b0, 0));
        assert(be32(b@, 8) == be32(b1, 8));
        assert(be32(b@, 12) == be32(b2, 12));
        assert(be32(b@, 16) == be32(b3, 16));
        assert(be32(b@, 20) == be32(b4, 20));
    }
    b
}

/// A fw_cfg file-directory entry names `name`: the 56-byte name field
/// holds `name` then a NUL (or `name` fills it).
pub open spec fn dir_name_is(e: Seq<u8>, name: Seq<u8>) -> bool {
    &&& name.len() <= 56
    &&& forall|i: int| 0 <= i < name.len() ==> e[8 + i] == name[i] && name[i] != 0
    &&& name.len() < 56 ==> e[8 + name.len() as int] == 0
}

/// Finds `name` in the fw_cfg file directory `entries` (`count`
/// entries of 64 bytes: be32 size, be16 select, 2 reserved, 56-byte
/// name); returns its selector and size.
pub fn find_file(entries: &[u8], count: u32, name: &[u8]) -> (r: Option<(u16, u32)>)
    requires
        entries@.len() >= 64 * count,
        forall|i: int| 0 <= i < name@.len() ==> name@[i] != 0,
    ensures
        match r {
            Some((sel, size)) => exists|k: int|
                0 <= k < count && #[trigger] dir_name_is(entries@.subrange(64 * k, 64 * k + 64), name@) && sel
                    == be16(entries@, 64 * k + 4) && size == be32(entries@, 64 * k),
            None => forall|k: int|
                0 <= k < count ==> !#[trigger] dir_name_is(entries@.subrange(64 * k, 64 * k + 64), name@),
        },
{
    let _len: usize = entries.len();
    if name.len() > 56 {
        return None;
    }
    let mut k: u32 = 0;
    while k < count
        invariant
            entries@.len() >= 64 * count,
            _len == entries@.len(),
            name@.len() <= 56,
            forall|i: int| 0 <= i < name@.len() ==> name@[i] != 0,
            k <= count,
            forall|j: int| 0 <= j < k ==> !#[trigger] dir_name_is(entries@.subrange(64 * j, 64 * j + 64), name@),
        decreases count - k,
    {
        let base: usize = 64 * (k as usize);
        proof {
            assert(64 * k + 64 <= 64 * count) by (nonlinear_arith)
                requires
                    k < count,
            ;
        }
        let ghost e = entries@.subrange(base as int, base + 64);
        let mut ok: bool = true;
        let mut i: usize = 0;
        while i < name.len()
            invariant
                name@.len() <= 56,
                _len == entries@.len(),
                base + 64 <= entries@.len(),
                e == entries@.subrange(base as int, base + 64),
                i <= name@.len(),
                ok == forall|j: int| 0 <= j < i ==> e[8 + j] == name@[j],
            decreases name@.len() - i,
        {
            if entries[base + 8 + i] != name[i] {
                ok = false;
            }
            i = i + 1;
        }
        if ok && name.len() < 56 {
            ok = entries[base + 8 + name.len()] == 0;
        }
        proof {
            assert(ok == dir_name_is(e, name@));
        }
        if ok {
            let sel: u16 = crate::bytes::get_be_u16(entries, base + 4);
            let size: u32 = crate::bytes::get_be_u32(entries, base);
            return Some((sel, size));
        }
        k = k + 1;
    }
    None
}

} // verus!
