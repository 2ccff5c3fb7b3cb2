use vstd::prelude::*;

verus! {

/// Bytes per pixel: red, green, blue, alpha.
pub const DEPTH: usize = 4;

/// The fixed-point blend of one color channel: `dst` under alpha `a1`,
/// covered by `src` under alpha `a2`, normalised by a shift of sixteen bits.
pub open spec fn blend(dst: int, src: int, a1: int, a2: int) -> int {
    (dst * a1 * (255 - a2) + src * a2 * 255) / 65536
}

/// Blends one channel of an existing pixel (`c1`, alpha `a1`) with one
/// channel of a drawn color (`c2`, alpha `a2`).
pub fn calc_color(c1: u8, c2: u8, a1: u32, a2: u32) -> (r: u8)
    requires
        a1 <= 255,
        a2 <= 255,
    ensures
        r == blend(c1 as int, c2 as int, a1 as int, a2 as int),
{
    proof {
        lemma_blend_bounds(c1 as int, c2 as int, a1 as int, a2 as int);
        assert(c1 as u32 * a1 <= 255 * 255) by (nonlinear_arith)
            requires c1 <= 255, a1 <= 255;
        assert(c2 as u32 * a2 <= 255 * 255) by (nonlinear_arith)
            requires c2 <= 255, a2 <= 255;
    }
    let d: u32 = c1 as u32 * a1 * (255 - a2);
    let s: u32 = c2 as u32 * a2 * 255;
    let sum: u32 = d + s;
    proof {
        assert(sum >> 16u32 == sum / 65536) by (bit_vector);
    }
    (sum >> 16u32) as u8
}

/// The blended sum never exceeds `255 * 255 * 255`, so the blended channel
/// always fits in a byte.
pub proof fn lemma_blend_bounds(dst: int, src: int, a1: int, a2: int)
    requires
        0 <= dst <= 255,
        0 <= src <= 255,
        0 <= a1 <= 255,
        0 <= a2 <= 255,
    ensures
        0 <= dst * a1 * (255 - a2) <= 255 * 255 * (255 - a2),
        0 <= src * a2 * 255 <= 255 * a2 * 255,
        0 <= blend(dst, src, a1, a2) <= 253,
{
    assert(0 <= dst * a1 * (255 - a2) <= 255 * 255 * (255 - a2)) by (nonlinear_arith)
        requires 0 <= dst <= 255, 0 <= a1 <= 255, 0 <= a2 <= 255;
    assert(0 <= src * a2 * 255 <= 255 * a2 * 255) by (nonlinear_arith)
        requires 0 <= src <= 255, 0 <= a2 <= 255;
    assert(255 * 255 * (255 - a2) + 255 * a2 * 255 == 16581375) by (nonlinear_arith);
}

/// The value of channel `c` of pixel `(px, py)` in a row-major RGBA buffer
/// whose rows are `w` pixels wide.
pub open spec fn byte_at(buf: Seq<u8>, w: int, px: int, py: int, c: int) -> int {
    buf[(py * w + px) * 4 + c] as int
}

/// A buffer of `dims.0` by `dims.1` RGBA pixels.
pub open spec fn is_frame(buf: Seq<u8>, dims: (usize, usize)) -> bool {
    buf.len() == dims.0 * dims.1 * 4
}

/// `v` moved into `[0, limit]`.
pub open spec fn clamp(v: int, limit: int) -> int {
    if v < 0 {
        0
    } else if v > limit {
        limit
    } else {
        v
    }
}

/// Whether pixel `(px, py)` lies in the rectangle with corner `(x, y)`.
pub open spec fn in_rect(px: int, py: int, x: int, y: int, width: int, height: int) -> bool {
    x <= px < x + width && y <= py < y + height
}

/// Channel `c` of a pixel whose old channels are `old` (alpha at index 3)
/// once `color` has been blended over it; alpha becomes opaque.
pub open spec fn blended_channel(old: Seq<u8>, color: Seq<u8>, c: int) -> int {
    if c == 3 {
        255
    } else {
        blend(old[c] as int, color[c] as int, old[3] as int, color[3] as int)
    }
}

/// Channel `c` of pixel `(px, py)` after `draw_rect` on the buffer `old`.
pub open spec fn rect_byte(
    old: Seq<u8>,
    w: int,
    px: int,
    py: int,
    c: int,
    x: int,
    y: int,
    width: int,
    height: int,
    color: Seq<u8>,
) -> int {
    if in_rect(px, py, x, y, width, height) {
        let base = (py * w + px) * 4;
        blended_channel(old.subrange(base, base + 4), color, c)
    } else {
        byte_at(old, w, px, py, c)
    }
}

/// The buffer of `len` bytes, in rows of `w` pixels, whose channel `c` of
/// pixel `(px, py)` is `paint(px, py, c)`.
pub open spec fn frame_of(len: nat, w: int, paint: spec_fn(int, int, int) -> int) -> Seq<u8> {
    Seq::new(len, |k: int| paint((k / 4) % w, (k / 4) / w, k % 4) as u8)
}

/// Each byte of the buffer after `draw_rect`, by pixel and channel.
pub open spec fn rect_paint(
    old: Seq<u8>,
    w: int,
    x: int,
    y: int,
    width: int,
    height: int,
    color: Seq<u8>,
) -> spec_fn(int, int, int) -> int {
    |px: int, py: int, c: int| rect_byte(old, w, px, py, c, x, y, width, height, color)
}

/// The whole buffer after `draw_rect` on `old`.
pub open spec fn rect_frame(
    old: Seq<u8>,
    dims: (usize, usize),
    x: int,
    y: int,
    width: int,
    height: int,
    color: Seq<u8>,
) -> Seq<u8> {
    frame_of(old.len(), dims.0 as int, rect_paint(old, dims.0 as int, x, y, width, height, color))
}

/// A flat byte index of a `w` by `h` buffer, split into pixel and channel.
pub proof fn lemma_pixel_decompose(w: int, h: int, k: int)
    requires
        0 < w,
        0 <= k < w * h * 4,
    ensures
        0 <= (k / 4) % w < w,
        0 <= (k / 4) / w < h,
        0 <= k % 4 < 4,
        k == (((k / 4) / w) * w + (k / 4) % w) * 4 + k % 4,
{
    let p = k / 4;
    assert(k == 4 * p + k % 4 && 0 <= k % 4 < 4) by {
        vstd::arithmetic::div_mod::lemma_fundamental_div_mod(k, 4);
    }
    assert(p < w * h) by (nonlinear_arith)
        requires k == 4 * p + k % 4, 0 <= k % 4 < 4, k < w * h * 4;
    assert(p == w * (p / w) + p % w) by {
        vstd::arithmetic::div_mod::lemma_fundamental_div_mod(p, w);
    }
    vstd::arithmetic::div_mod::lemma_mod_pos_bound(p, w);
    vstd::arithmetic::div_mod::lemma_div_pos_is_pos(p, w);
    assert((p / w) * w == w * (p / w)) by (nonlinear_arith);
    assert(p / w < h) by (nonlinear_arith)
        requires p == w * (p / w) + p % w, 0 <= p % w, p < w * h, 0 < w;
}

/// A buffer that agrees with `paint` on every pixel and channel is
/// `frame_of` that painting.
pub proof fn lemma_frame_of(buf: Seq<u8>, dims: (usize, usize), paint: spec_fn(int, int, int) -> int)
    requires
        is_frame(buf, dims),
        forall|px: int, py: int, c: int|
            0 <= px < dims.0 && 0 <= py < dims.1 && 0 <= c < 4 ==> #[trigger] byte_at(buf, dims.0 as int, px, py, c)
                == paint(px, py, c),
    ensures
        buf == frame_of(buf.len(), dims.0 as int, paint),
{
    let w = dims.0 as int;
    let h = dims.1 as int;
    let f = frame_of(buf.len(), w, paint);
    if w == 0 {
        assert(buf.len() == 0) by (nonlinear_arith)
            requires buf.len() == w * h * 4, w == 0;
        assert(buf =~= f);
    } else {
        assert forall|k: int| 0 <= k < buf.len() implies buf[k] == f[k] by {
            lemma_pixel_decompose(w, h, k);
            let px = (k / 4) % w;
            let py = (k / 4) / w;
            assert(byte_at(buf, w, px, py, k % 4) == paint(px, py, k % 4));
        }
        assert(buf =~= f);
    }
}

/// `q` is the square root of `n` rounded to the nearest integer:
/// `q - 1/2 <= sqrt(n) < q + 1/2`.
pub open spec fn is_round_sqrt(q: int, n: int) -> bool {
    &&& 0 <= q
    &&& q == 0 || (2 * q - 1) * (2 * q - 1) <= 4 * n
    &&& 4 * n < (2 * q + 1) * (2 * q + 1)
}

/// Whether the pixel at column offset `k` from a circle's centre lies on a
/// scanline whose half chord is `sqrt(n)`: the pixel's centre, at `k + 1/2`,
/// is within `sqrt(n)` of the centre. These are the offsets `[-q, q)` where
/// `q` is `sqrt(n)` rounded; see `lemma_chord_span`.
pub open spec fn in_chord(k: int, n: int) -> bool {
    (2 * k + 1) * (2 * k + 1) <= 4 * n
}

/// Whether pixel `(px, py)` is filled by a circle of radius `r` whose top
/// scanline is `y` and whose centre column is `x`: scanline `py` lies at
/// offset `i = py - y` in `[0, 2r)`, and its half chord is
/// `sqrt(r * r - (i - r) * (i - r))`, that is `cos(asin(|i - r| / r)) * r`.
pub open spec fn in_circle(px: int, py: int, x: int, y: int, r: int) -> bool {
    y <= py < y + 2 * r && in_chord(px - x, r * r - (py - y - r) * (py - y - r))
}

/// Channel `c` of pixel `(px, py)` after `draw_circle` on the buffer `old`.
pub open spec fn circle_byte(old: Seq<u8>, w: int, px: int, py: int, c: int, x: int, y: int, r: int) -> int {
    if in_circle(px, py, x, y, r) {
        255
    } else {
        byte_at(old, w, px, py, c)
    }
}

/// Each byte of the buffer after `draw_circle`, by pixel and channel.
pub open spec fn circle_paint(old: Seq<u8>, w: int, x: int, y: int, r: int) -> spec_fn(int, int, int) -> int {
    |px: int, py: int, c: int| circle_byte(old, w, px, py, c, x, y, r)
}

/// The whole buffer after `draw_circle` on `old` with a positive radius.
pub open spec fn circle_frame(old: Seq<u8>, dims: (usize, usize), x: int, y: int, r: int) -> Seq<u8> {
    frame_of(old.len(), dims.0 as int, circle_paint(old, dims.0 as int, x, y, r))
}

/// Why a primitive was not drawn.
#[derive(Debug, Clone, Copy, PartialEq, Eq, Structural)]
pub enum DrawError {
    /// A circle needs a radius of at least one pixel.
    NonPositiveRadius,
}

/// The pixels of a scanline whose half chord is `sqrt(n)` are exactly the
/// offsets `[-q, q)`, where `q` is `sqrt(n)` rounded: `2 * q` of them.
pub proof fn lemma_chord_span(k: int, n: int, q: int)
    requires
        is_round_sqrt(q, n),
    ensures
        in_chord(k, n) <==> -q <= k < q,
{
    let m = 2 * k + 1;
    if -q <= k < q {
        assert(m * m <= (2 * q - 1) * (2 * q - 1)) by (nonlinear_arith)
            requires m == 2 * k + 1, -q <= k < q;
    } else {
        assert((2 * q + 1) * (2 * q + 1) <= m * m) by (nonlinear_arith)
            requires m == 2 * k + 1, 0 <= q, k < -q || q <= k;
    }
}

/// The square root of `n` rounded to the nearest integer.
pub fn round_sqrt(n: u64) -> (q: u64)
    requires
        n < 0x4000_0000_0000_0000,
    ensures
        is_round_sqrt(q as int, n as int),
{
    let s = isqrt(4 * n);
    assert(s < 0x1_0000_0000) by (nonlinear_arith)
        requires s * s <= 4 * n, 4 * n < 0x1_0000_0000_0000_0000, 0 <= s;
    let q = (s + 1) / 2;
    assert(is_round_sqrt(q as int, n as int)) by (nonlinear_arith)
        requires
            s * s <= 4 * n < (s + 1) * (s + 1),
            0 <= s,
            q == (s + 1) / 2;
    q
}

/// On the scanline at offset `i` of a circle of radius `r`, the filled pixels
/// are exactly the `2 * q` columns `[x - q, x + q)`, where `q` is the half
/// chord `sqrt(r^2 - (i - r)^2)` rounded; no scanline outside `[0, 2r)` is
/// filled.
pub proof fn lemma_circle_scanline(px: int, x: int, y: int, r: int, i: int, q: int)
    requires
        r > 0,
        is_round_sqrt(q, r * r - (i - r) * (i - r)),
    ensures
        0 <= i < 2 * r ==> (in_circle(px, y + i, x, y, r) <==> x - q <= px < x + q),
        !(0 <= i < 2 * r) ==> !in_circle(px, y + i, x, y, r),
{
    lemma_chord_span(px - x, r * r - (i - r) * (i - r), q);
}

/// The floor of the square root of `n`.
pub fn isqrt(n: u64) -> (s: u64)
    ensures
        s * s <= n < (s + 1) * (s + 1),
{
    let mut lo: u64 = 0;
    let mut hi: u64 = 0x1_0000_0000;
    assert(hi * hi > n) by (nonlinear_arith)
        requires hi == 0x1_0000_0000, n <= u64::MAX;
    while lo + 1 < hi
        invariant
            lo < hi <= 0x1_0000_0000,
            lo * lo <= n,
            n < hi * hi,
        decreases hi - lo,
    {
        let mid = lo + (hi - lo) / 2;
        assert(mid * mid <= 0xffff_ffff * 0xffff_ffff) by (nonlinear_arith)
            requires mid < 0x1_0000_0000;
        if mid * mid <= n {
            lo = mid;
        } else {
            hi = mid;
        }
    }
    lo
}

/// Distinct pixels of a row-major grid have distinct flat indices.
pub proof fn lemma_row_major_injective(w: int, px: int, py: int, qx: int, qy: int)
    requires
        0 <= px < w,
        0 <= qx < w,
        0 <= py,
        0 <= qy,
        py * w + px == qy * w + qx,
    ensures
        px == qx,
        py == qy,
{
    if py < qy {
        assert(py * w + px < qy * w + qx) by (nonlinear_arith)
            requires 0 <= px < w, 0 <= qx, py < qy;
    } else if qy < py {
        assert(qy * w + qx < py * w + px) by (nonlinear_arith)
            requires 0 <= qx < w, 0 <= px, qy < py;
    }
}

/// The four bytes of a pixel inside a `w` by `h` grid lie inside its buffer.
pub proof fn lemma_pixel_in_frame(w: int, h: int, px: int, py: int)
    requires
        0 <= px < w,
        0 <= py < h,
    ensures
        0 <= py * w + px,
        (py * w + px) * 4 + 4 <= w * h * 4,
{
    assert(0 <= py * w + px && py * w + px + 1 <= w * h) by (nonlinear_arith)
        requires 0 <= px < w, 0 <= py < h;
}

/// `v` moved into `[0, limit]`.
fn clamp_index(v: i128, limit: usize) -> (r: usize)
    ensures
        r == clamp(v as int, limit as int),
{
    if v < 0 {
        0
    } else if v > limit as i128 {
        limit
    } else {
        v as usize
    }
}

/// The part of `[lo, hi)` that lies in `[0, limit)`, as a span that is empty
/// where the clamped ends cross.
fn clip_span(lo: i128, hi: i128, limit: usize) -> (r: (usize, usize))
    ensures
        r.0 == clamp(lo as int, limit as int),
        r.1 == if clamp(hi as int, limit as int) < r.0 {
            r.0 as int
        } else {
            clamp(hi as int, limit as int)
        },
        r.0 <= r.1 <= limit,
{
    let a = clamp_index(lo, limit);
    let b = clamp_index(hi, limit);
    if b < a {
        (a, a)
    } else {
        (a, b)
    }
}

/// Writes one pixel of `color` blended over the pixel whose bytes start at `base`.
fn blend_pixel(buffer: &mut Vec<u8>, base: usize, color: [u8; 4])
    requires
        base + 4 <= old(buffer)@.len(),
    ensures
        final(buffer)@.len() == old(buffer)@.len(),
        forall|k: int| 0 <= k < old(buffer)@.len() && !(base <= k < base + 4)
            ==> final(buffer)@[k] == old(buffer)@[k],
        forall|c: int| 0 <= c < 4 ==> final(buffer)@[base + c] as int
            == #[trigger] blended_channel(old(buffer)@.subrange(base as int, base + 4), color@, c),
{
    let len = buffer.len();
    assert(base + 3 < len);
    let a1 = buffer[base + 3] as u32;
    let a2 = color[3] as u32;
    let r = calc_color(buffer[base], color[0], a1, a2);
    let g = calc_color(buffer[base + 1], color[1], a1, a2);
    let b = calc_color(buffer[base + 2], color[2], a1, a2);
    buffer.set(base, r);
    buffer.set(base + 1, g);
    buffer.set(base + 2, b);
    buffer.set(base + 3, 255);
}

/// Paints the pixel whose bytes start at `base` opaque white.
fn fill_pixel(buffer: &mut Vec<u8>, base: usize)
    requires
        base + 4 <= old(buffer)@.len(),
    ensures
        final(buffer)@.len() == old(buffer)@.len(),
        forall|k: int| 0 <= k < old(buffer)@.len() && !(base <= k < base + 4)
            ==> final(buffer)@[k] == old(buffer)@[k],
        forall|c: int| 0 <= c < 4 ==> #[trigger] final(buffer)@[base + c] == 255,
{
    let len = buffer.len();
    assert(base + 3 < len);
    buffer.set(base, 255);
    buffer.set(base + 1, 255);
    buffer.set(base + 2, 255);
    buffer.set(base + 3, 255);
}

/// Blends `color` over every pixel of the rectangle with corner `(x, y)` and
/// size `width` by `height` that lies in the buffer, and makes those pixels
/// opaque. Pixels outside the rectangle, or outside the buffer, are untouched.
pub fn draw_rect(
    buffer: &mut Vec<u8>,
    dimensions: (usize, usize),
    x: i32,
    y: i32,
    width: usize,
    height: usize,
    color: [u8; 4],
)
    requires
        is_frame(old(buffer)@, dimensions),
    ensures
        final(buffer)@.len() == old(buffer)@.len(),
        forall|px: int, py: int, c: int|
            0 <= px < dimensions.0 && 0 <= py < dimensions.1 && 0 <= c < 4
                ==> #[trigger] byte_at(final(buffer)@, dimensions.0 as int, px, py, c) == rect_byte(
                old(buffer)@,
                dimensions.0 as int,
                px,
                py,
                c,
                x as int,
                y as int,
                width as int,
                height as int,
                color@,
            ),
        final(buffer)@ == rect_frame(old(buffer)@, dimensions, x as int, y as int, width as int, height as int, color@),
{
    let ghost orig = buffer@;
    let n = buffer.len();
    let w = dimensions.0;
    let h = dimensions.1;
    let (c0, c1) = clip_span(x as i128, x as i128 + width as i128, w);
    let (r0, r1) = clip_span(y as i128, y as i128 + height as i128, h);
    let mut row = r0;
    while row < r1
        invariant
            r0 <= row <= r1 <= h,
            c0 <= c1 <= w,
            w == dimensions.0,
            h == dimensions.1,
            c0 == clamp(x as int, w as int),
            c1 == if clamp(x + width, w as int) < c0 { c0 as int } else { clamp(x + width, w as int) },
            r0 == clamp(y as int, h as int),
            r1 == if clamp(y + height, h as int) < r0 { r0 as int } else { clamp(y + height, h as int) },
            buffer@.len() == orig.len(),
            n == orig.len(),
            is_frame(orig, dimensions),
            forall|px: int, py: int, c: int|
                0 <= px < w && 0 <= py < h && 0 <= c < 4 ==> #[trigger] byte_at(buffer@, w as int, px, py, c)
                    == if py < row {
                    rect_byte(orig, w as int, px, py, c, x as int, y as int, width as int, height as int, color@)
                } else {
                    byte_at(orig, w as int, px, py, c)
                },
        decreases r1 - row,
    {
        let mut col = c0;
        while col < c1
            invariant
                r0 <= row < r1 <= h,
                c0 <= col <= c1 <= w,
                w == dimensions.0,
                h == dimensions.1,
                c0 == clamp(x as int, w as int),
                c1 == if clamp(x + width, w as int) < c0 { c0 as int } else { clamp(x + width, w as int) },
                r0 == clamp(y as int, h as int),
                r1 == if clamp(y + height, h as int) < r0 { r0 as int } else { clamp(y + height, h as int) },
                buffer@.len() == orig.len(),
                n == orig.len(),
                is_frame(orig, dimensions),
                forall|px: int, py: int, c: int|
                    0 <= px < w && 0 <= py < h && 0 <= c < 4 ==> #[trigger] byte_at(buffer@, w as int, px, py, c)
                        == if py < row || (py == row && c0 <= px < col) {
                        rect_byte(orig, w as int, px, py, c, x as int, y as int, width as int, height as int, color@)
                    } else {
                        byte_at(orig, w as int, px, py, c)
                    },
            decreases c1 - col,
        {
            proof {
                lemma_pixel_in_frame(w as int, h as int, col as int, row as int);
            }
            let base = (row * w + col) * DEPTH;
            let ghost before = buffer@;
            blend_pixel(buffer, base, color);
            proof {
                assert(before.subrange(base as int, base + 4) =~= orig.subrange(base as int, base + 4)) by {
                    assert forall|k: int| 0 <= k < 4 implies #[trigger] before.subrange(base as int, base + 4)[k]
                        == orig.subrange(base as int, base + 4)[k] by {
                        assert(byte_at(before, w as int, col as int, row as int, k) == byte_at(orig, w as int, col as int, row as int, k));
                    }
                }
                assert forall|px: int, py: int, c: int|
                    0 <= px < w && 0 <= py < h && 0 <= c < 4 implies #[trigger] byte_at(buffer@, w as int, px, py, c)
                        == if py < row || (py == row && c0 <= px < col + 1) {
                        rect_byte(orig, w as int, px, py, c, x as int, y as int, width as int, height as int, color@)
                    } else {
                        byte_at(orig, w as int, px, py, c)
                    } by {
                    lemma_pixel_in_frame(w as int, h as int, px, py);
                    if px == col && py == row {
                        assert(in_rect(px, py, x as int, y as int, width as int, height as int));
                        assert(buffer@[base + c] as int == blended_channel(before.subrange(base as int, base + 4), color@, c));
                    } else {
                        if py * w + px == row * w + col {
                            lemma_row_major_injective(w as int, px, py, col as int, row as int);
                        }
                        assert(byte_at(buffer@, w as int, px, py, c) == byte_at(before, w as int, px, py, c));
                    }
                }
            }
            col += 1;
        }
        proof {
            assert forall|px: int, py: int, c: int|
                0 <= px < w && 0 <= py < h && 0 <= c < 4 implies #[trigger] byte_at(buffer@, w as int, px, py, c)
                    == if py < row + 1 {
                    rect_byte(orig, w as int, px, py, c, x as int, y as int, width as int, height as int, color@)
                } else {
                    byte_at(orig, w as int, px, py, c)
                } by {
                if py == row && !(c0 <= px < c1) {
                    assert(!in_rect(px, py, x as int, y as int, width as int, height as int));
                }
            }
        }
        row += 1;
    }
    proof {
        assert forall|px: int, py: int, c: int|
            0 <= px < w && 0 <= py < h && 0 <= c < 4 implies #[trigger] byte_at(buffer@, w as int, px, py, c)
                == rect_byte(orig, w as int, px, py, c, x as int, y as int, width as int, height as int, color@) by {
            if !(py < row) {
                assert(!in_rect(px, py, x as int, y as int, width as int, height as int));
            }
        }
        lemma_frame_of(buffer@, dimensions, rect_paint(orig, w as int, x as int, y as int, width as int, height as int, color@));
    }
}

/// Fills a circle of radius `radius` opaque white: scanline `y + i`, for
/// each `i` in `[0, 2 * radius)`, is filled on the columns `[x - q, x + q)`,
/// where `q` is `sqrt(radius^2 - (i - radius)^2)` rounded. Pixels
/// outside the buffer are skipped. A radius below one is rejected and
/// leaves the buffer as it was.
pub fn draw_circle(buffer: &mut Vec<u8>, dimensions: (usize, usize), x: i32, y: i32, radius: i32) -> (r:
    Result<(), DrawError>)
    requires
        is_frame(old(buffer)@, dimensions),
    ensures
        radius <= 0 ==> r == Err::<(), DrawError>(DrawError::NonPositiveRadius) && final(buffer)@ == old(buffer)@,
        radius > 0 ==> r is Ok,
        final(buffer)@.len() == old(buffer)@.len(),
        radius > 0 ==> forall|px: int, py: int, c: int|
            0 <= px < dimensions.0 && 0 <= py < dimensions.1 && 0 <= c < 4
                ==> #[trigger] byte_at(final(buffer)@, dimensions.0 as int, px, py, c) == circle_byte(
                old(buffer)@,
                dimensions.0 as int,
                px,
                py,
                c,
                x as int,
                y as int,
                radius as int,
            ),
        radius > 0 ==> final(buffer)@ == circle_frame(old(buffer)@, dimensions, x as int, y as int, radius as int),
{
    if radius <= 0 {
        return Err(DrawError::NonPositiveRadius);
    }
    let ghost orig = buffer@;
    let n = buffer.len();
    let w = dimensions.0;
    let h = dimensions.1;
    let rad = radius as i128;
    let (r0, r1) = clip_span(y as i128, y as i128 + 2 * rad, h);
    let mut row = r0;
    while row < r1
        invariant
            r0 <= row <= r1 <= h,
            w == dimensions.0,
            h == dimensions.1,
            rad == radius,
            radius > 0,
            r0 == clamp(y as int, h as int),
            r1 == if clamp(y + 2 * radius, h as int) < r0 { r0 as int } else { clamp(y + 2 * radius, h as int) },
            buffer@.len() == orig.len(),
            n == orig.len(),
            is_frame(orig, dimensions),
            forall|px: int, py: int, c: int|
                0 <= px < w && 0 <= py < h && 0 <= c < 4 ==> #[trigger] byte_at(buffer@, w as int, px, py, c)
                    == if py < row {
                    circle_byte(orig, w as int, px, py, c, x as int, y as int, radius as int)
                } else {
                    byte_at(orig, w as int, px, py, c)
                },
        decreases r1 - row,
    {
        let offset = row as i128 - y as i128 - rad;
        assert(-rad <= offset < rad);
        assert(rad * rad < 0x4000_0000_0000_0000 && 0 <= offset * offset <= rad * rad) by (nonlinear_arith)
            requires 0 < rad < 0x8000_0000, -rad <= offset < rad;
        let square = rad * rad;
        let off_square = offset * offset;
        let chord = square - off_square;
        assert(0 <= chord < 0x4000_0000_0000_0000) by (nonlinear_arith)
            requires
                chord == square - off_square,
                square == rad * rad,
                off_square == offset * offset,
                0 < rad < 0x8000_0000,
                -rad <= offset < rad;
        let s = round_sqrt(chord as u64);
        let (c0, c1) = clip_span(x as i128 - s as i128, x as i128 + s as i128, w);
        proof {
            assert forall|k: int| #[trigger] in_chord(k, chord as int) <==> -(s as int) <= k < s by {
                lemma_chord_span(k, chord as int, s as int);
            }
        }
        let mut col = c0;
        while col < c1
            invariant
                r0 <= row < r1 <= h,
                c0 <= col <= c1 <= w,
                w == dimensions.0,
                h == dimensions.1,
                rad == radius,
                radius > 0,
                c0 == clamp(x - s, w as int),
                c1 == if clamp(x + s, w as int) < c0 { c0 as int } else { clamp(x + s, w as int) },
                r0 == clamp(y as int, h as int),
                r1 == if clamp(y + 2 * radius, h as int) < r0 { r0 as int } else { clamp(y + 2 * radius, h as int) },
                chord == radius * radius - (row - y - radius) * (row - y - radius),
                forall|k: int| #[trigger] in_chord(k, chord as int) <==> -(s as int) <= k < s,
                buffer@.len() == orig.len(),
                n == orig.len(),
                is_frame(orig, dimensions),
                forall|px: int, py: int, c: int|
                    0 <= px < w && 0 <= py < h && 0 <= c < 4 ==> #[trigger] byte_at(buffer@, w as int, px, py, c)
                        == if py < row || (py == row && c0 <= px < col) {
                        circle_byte(orig, w as int, px, py, c, x as int, y as int, radius as int)
                    } else {
                        byte_at(orig, w as int, px, py, c)
                    },
            decreases c1 - col,
        {
            proof {
                lemma_pixel_in_frame(w as int, h as int, col as int, row as int);
            }
            let base = (row * w + col) * DEPTH;
            let ghost before = buffer@;
            fill_pixel(buffer, base);
            proof {
                assert forall|px: int, py: int, c: int|
                    0 <= px < w && 0 <= py < h && 0 <= c < 4 implies #[trigger] byte_at(buffer@, w as int, px, py, c)
                        == if py < row || (py == row && c0 <= px < col + 1) {
                        circle_byte(orig, w as int, px, py, c, x as int, y as int, radius as int)
                    } else {
                        byte_at(orig, w as int, px, py, c)
                    } by {
                    lemma_pixel_in_frame(w as int, h as int, px, py);
                    if px == col && py == row {
                        assert(in_chord(px - x, chord as int));
                        assert(in_circle(px, py, x as int, y as int, radius as int));
                        assert(buffer@[base + c] == 255);
                    } else {
                        if py * w + px == row * w + col {
                            lemma_row_major_injective(w as int, px, py, col as int, row as int);
                        }
                        assert(byte_at(buffer@, w as int, px, py, c) == byte_at(before, w as int, px, py, c));
                    }
                }
            }
            col += 1;
        }
        proof {
            assert forall|px: int, py: int, c: int|
                0 <= px < w && 0 <= py < h && 0 <= c < 4 implies #[trigger] byte_at(buffer@, w as int, px, py, c)
                    == if py < row + 1 {
                    circle_byte(orig, w as int, px, py, c, x as int, y as int, radius as int)
                } else {
                    byte_at(orig, w as int, px, py, c)
                } by {
                if py == row && !(c0 <= px < c1) {
                    assert(!in_chord(px - x, chord as int));
                    assert(!in_circle(px, py, x as int, y as int, radius as int));
                }
            }
        }
        row += 1;
    }
    proof {
        assert forall|px: int, py: int, c: int|
            0 <= px < w && 0 <= py < h && 0 <= c < 4 implies #[trigger] byte_at(buffer@, w as int, px, py, c)
                == circle_byte(orig, w as int, px, py, c, x as int, y as int, radius as int) by {
            if !(py < row) {
                assert(!in_circle(px, py, x as int, y as int, radius as int));
            }
        }
        lemma_frame_of(buffer@, dimensions, circle_paint(orig, w as int, x as int, y as int, radius as int));
    }
    Ok(())
}

} // verus!
