use vstd::prelude::*;
use vstd::arithmetic::div_mod::{lemma_fundamental_div_mod, lemma_fundamental_div_mod_converse};
use crate::chunk::ChunkKey;

verus! {

/// Side of one chunk on screen, in pixels.
pub const CHUNK_PIXEL_SIZE: u32 = 300;

/// Index of the chunk column (or row) whose centre is nearest to a camera
/// offset: `floor((offset + size / 2) / size)`.
pub open spec fn nearest_chunk(offset: int, size: int) -> int {
    (offset + size / 2) / size
}

/// Lowest key of the window on one axis: one chunk of prefetch border
/// before the first visible chunk.
pub open spec fn window_low(offset: int, size: int) -> int {
    -1 - nearest_chunk(offset, size)
}

/// Highest key of the window on one axis: the visible chunks plus one chunk
/// of prefetch border.
pub open spec fn window_high(offset: int, bound: int, size: int) -> int {
    bound + 1 - nearest_chunk(offset, size)
}

/// Whether a key coordinate can be held in `i64`.
pub open spec fn fits_i64(v: int) -> bool {
    i64::MIN <= v <= i64::MAX
}

/// Inclusive rectangle of chunk keys that should be resident.
#[derive(Debug, Clone, Copy, PartialEq, Eq, Structural)]
pub struct ChunkWindow {
    pub min_x: i64,
    pub max_x: i64,
    pub min_y: i64,
    pub max_y: i64,
}

impl ChunkWindow {
    pub open spec fn contains(self, k: ChunkKey) -> bool {
        self.min_x <= k.x <= self.max_x && self.min_y <= k.y <= self.max_y
    }

    pub open spec fn wf(self) -> bool {
        self.min_x <= self.max_x && self.min_y <= self.max_y
    }

    /// Whether the window for this camera has all of its keys in `i64`.
    pub open spec fn representable(offset: (i64, i64), bounds: (u32, u32), size: u32) -> bool {
        &&& fits_i64(window_low(offset.0 as int, size as int))
        &&& fits_i64(window_high(offset.0 as int, bounds.0 as int, size as int))
        &&& fits_i64(window_low(offset.1 as int, size as int))
        &&& fits_i64(window_high(offset.1 as int, bounds.1 as int, size as int))
    }

    /// The window of a camera at `offset` pixels over a viewport of `bounds`
    /// whole chunks.
    pub open spec fn of_camera(offset: (i64, i64), bounds: (u32, u32), size: u32) -> ChunkWindow {
        ChunkWindow {
            min_x: window_low(offset.0 as int, size as int) as i64,
            max_x: window_high(offset.0 as int, bounds.0 as int, size as int) as i64,
            min_y: window_low(offset.1 as int, size as int) as i64,
            max_y: window_high(offset.1 as int, bounds.1 as int, size as int) as i64,
        }
    }

    /// Computes the window from the camera each time afresh: keys
    /// `-1 - c ..= bound + 1 - c` on each axis, where `c` is the chunk
    /// nearest to the camera offset. `None` when a key would leave `i64`.
    pub fn from_camera(offset: (i64, i64), bounds: (u32, u32), chunk_pixel_size: u32) -> (r: Option<
        ChunkWindow,
    >)
        requires
            chunk_pixel_size > 0,
        ensures
            r is Some <==> Self::representable(offset, bounds, chunk_pixel_size),
            r is Some ==> r->Some_0 == Self::of_camera(offset, bounds, chunk_pixel_size),
            r is Some ==> r->Some_0.wf(),
    {
        let cx = nearest_chunk_exec(offset.0, chunk_pixel_size);
        let cy = nearest_chunk_exec(offset.1, chunk_pixel_size);
        let min_x: i128 = -1 - cx;
        let max_x: i128 = bounds.0 as i128 + 1 - cx;
        let min_y: i128 = -1 - cy;
        let max_y: i128 = bounds.1 as i128 + 1 - cy;
        let lo = i64::MIN as i128;
        let hi = i64::MAX as i128;
        if lo <= min_x && max_x <= hi && lo <= min_y && max_y <= hi {
            Some(
                ChunkWindow {
                    min_x: min_x as i64,
                    max_x: max_x as i64,
                    min_y: min_y as i64,
                    max_y: max_y as i64,
                },
            )
        } else {
            None
        }
    }

    pub fn contains_key(&self, k: ChunkKey) -> (r: bool)
        ensures
            r == self.contains(k),
    {
        self.min_x <= k.x && k.x <= self.max_x && self.min_y <= k.y && k.y <= self.max_y
    }
}

fn nearest_chunk_exec(offset: i64, size: u32) -> (r: i128)
    requires
        size > 0,
    ensures
        r == nearest_chunk(offset as int, size as int),
        -0x1_0000_0000_0000_0000 <= r <= 0x1_0000_0000_0000_0000,
{
    let s = size as i128;
    let n: i128 = offset as i128 + s / 2;
    if n >= 0 {
        proof {
            assert(n / s <= n) by (nonlinear_arith)
                requires n >= 0, s >= 1;
        }
        n / s
    } else {
        let m: i128 = -n;
        let q: i128 = (m + s - 1) / s;
        proof {
            let t: int = m + s - 1;
            let si: int = s as int;
            let qi: int = q as int;
            let ni: int = n as int;
            lemma_fundamental_div_mod(t, si);
            let rem: int = t % si;
            assert(t == si * qi + rem);
            assert(ni == (-qi) * si + (si - 1 - rem)) by (nonlinear_arith)
                requires t == si * qi + rem, t == -ni + si - 1;
            lemma_fundamental_div_mod_converse(ni, si, -qi, si - 1 - rem);
            assert(qi <= t) by (nonlinear_arith)
                requires t >= 0, si >= 1, qi == t / si;
        }
        -q
    }
}

/// The viewport size in whole chunks, from its size in pixels.
pub fn viewport_bounds(width: u32, height: u32, chunk_pixel_size: u32) -> (r: (u32, u32))
    requires
        chunk_pixel_size > 0,
    ensures
        r == (width / chunk_pixel_size, height / chunk_pixel_size),
{
    (width / chunk_pixel_size, height / chunk_pixel_size)
}

/// Screen position of a chunk: `camera_offset + key * chunk_pixel_size`.
pub open spec fn draw_position(camera_offset: (i64, i64), k: ChunkKey, size: u32) -> (int, int) {
    (camera_offset.0 + k.x * size, camera_offset.1 + k.y * size)
}

/// Where a chunk is drawn, computed exactly; the same pixel size must be
/// used here as for the window.
pub fn chunk_position(camera_offset: (i64, i64), key: ChunkKey, chunk_pixel_size: u32) -> (r: (
    i128,
    i128,
))
    ensures
        (r.0 as int, r.1 as int) == draw_position(camera_offset, key, chunk_pixel_size),
{
    let s = chunk_pixel_size as i128;
    let kx = key.x as i128;
    let ky = key.y as i128;
    proof {
        assert(-0x8000_0000_0000_0000_0000_0000 <= kx * s <= 0x8000_0000_0000_0000_0000_0000)
            by (nonlinear_arith)
            requires
                -0x8000_0000_0000_0000 <= kx <= 0x8000_0000_0000_0000,
                0 <= s <= 0x1_0000_0000,
        ;
        assert(-0x8000_0000_0000_0000_0000_0000 <= ky * s <= 0x8000_0000_0000_0000_0000_0000)
            by (nonlinear_arith)
            requires
                -0x8000_0000_0000_0000 <= ky <= 0x8000_0000_0000_0000,
                0 <= s <= 0x1_0000_0000,
        ;
    }
    (camera_offset.0 as i128 + kx * s, camera_offset.1 as i128 + ky * s)
}

proof fn lemma_floor_div_close(a: int, b: int, s: int)
    requires
        s > 0,
        -s < a - b < s,
    ensures
        -1 <= a / s - b / s <= 1,
{
    lemma_fundamental_div_mod(a, s);
    lemma_fundamental_div_mod(b, s);
    let (qa, qb, ra, rb) = (a / s, b / s, a % s, b % s);
    assert(-1 <= qa - qb <= 1) by (nonlinear_arith)
        requires
            a == s * qa + ra,
            b == s * qb + rb,
            0 <= ra < s,
            0 <= rb < s,
            -s < a - b < s,
    ;
}

/// A camera that moves by less than one chunk's pixel size, on each axis,
/// moves the window by at most one column and one row; its size does not
/// change.
pub proof fn lemma_window_continuity(o1: (int, int), o2: (int, int), bounds: (u32, u32), size: u32)
    requires
        size > 0,
        -(size as int) < o1.0 - o2.0 < size,
        -(size as int) < o1.1 - o2.1 < size,
    ensures
        -1 <= window_low(o1.0, size as int) - window_low(o2.0, size as int) <= 1,
        -1 <= window_low(o1.1, size as int) - window_low(o2.1, size as int) <= 1,
        window_high(o1.0, bounds.0 as int, size as int) - window_low(o1.0, size as int)
            == window_high(o2.0, bounds.0 as int, size as int) - window_low(o2.0, size as int),
        window_high(o1.1, bounds.1 as int, size as int) - window_low(o1.1, size as int)
            == window_high(o2.1, bounds.1 as int, size as int) - window_low(o2.1, size as int),
{
    let h = size as int / 2;
    lemma_floor_div_close(o1.0 + h, o2.0 + h, size as int);
    lemma_floor_div_close(o1.1 + h, o2.1 + h, size as int);
}

/// A camera that moves by exactly one chunk's pixel size along an axis
/// shifts the window by exactly one key along that axis.
pub proof fn lemma_window_shift_one_chunk(offset: int, bound: u32, size: u32)
    requires
        size > 0,
    ensures
        window_low(offset + size, size as int) == window_low(offset, size as int) - 1,
        window_high(offset + size, bound as int, size as int) == window_high(
            offset,
            bound as int,
            size as int,
        ) - 1,
{
    let s = size as int;
    let n = offset + s / 2;
    lemma_fundamental_div_mod(n, s);
    let (q, r) = (n / s, n % s);
    assert(n + s == (q + 1) * s + r) by (nonlinear_arith)
        requires
            n == s * q + r,
    ;
    lemma_fundamental_div_mod_converse(n + s, s, q + 1, r);
}

} // verus!
