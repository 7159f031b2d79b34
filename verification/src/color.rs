//! Conversion of decoded YUV 4:2:0 planar frames into the RGBA pixel
//! buffer of a texture.
//!
//! Every 2x2 block of luma samples shares one Cb and one Cr sample.  Each
//! output pixel takes four bytes (R, G, B, A); the alpha byte is left as it
//! was.  Colour math is the usual fixed-point BT.601 "studio swing" formula
//! with 8 fractional bits, clamped to `0..=255`.
use vstd::prelude::*;

verus! {

/// One plane of a planar image: `data` holds rows of samples, and row `r`
/// starts at byte `r * pitch`.
#[derive(Clone, Copy)]
pub struct Plane<'a> {
    pub data: &'a [u8],
    pub pitch: usize,
}

/// Number of whole 2x2 blocks along an extent of `v` samples: a trailing
/// odd sample is not converted, and a non-positive extent gives none.
pub open spec fn half_extent(v: int) -> int {
    if v <= 0 {
        0
    } else {
        v / 2
    }
}

/// Scales a fixed-point value with 8 fractional bits down (rounding toward
/// negative infinity, as an arithmetic shift does) and clamps it to a byte.
pub open spec fn channel(v: int) -> int {
    let s = v / 256;
    if s > 255 {
        255
    } else if s < 0 {
        0
    } else {
        s
    }
}

/// Luma contribution of a sample: `(y - 16) * 298`.
pub open spec fn luma_term(y: int) -> int {
    (y - 16) * 298
}

/// Chroma contribution to red: `409 * (cr - 128) + 128`.
pub open spec fn red_term(cr: int) -> int {
    409 * (cr - 128) + 128
}

/// Chroma contribution to green: `-100 * (cb - 128) - 208 * (cr - 128) + 128`.
pub open spec fn green_term(cb: int, cr: int) -> int {
    -100 * (cb - 128) - 208 * (cr - 128) + 128
}

/// Chroma contribution to blue: `516 * (cb - 128) + 128`.
pub open spec fn blue_term(cb: int) -> int {
    516 * (cb - 128) + 128
}

/// Colour component `ch` (0 red, 1 green, 2 blue) of the pixel with luma
/// `y` and chroma `cb`, `cr`.
pub open spec fn rgb_component(y: int, cb: int, cr: int, ch: int) -> int {
    if ch == 0 {
        channel(luma_term(y) + red_term(cr))
    } else if ch == 1 {
        channel(luma_term(y) + green_term(cb, cr))
    } else {
        channel(luma_term(y) + blue_term(cb))
    }
}

/// The sample at (`row`, `col`) of a full-resolution plane.
pub open spec fn sample(p: Plane, row: int, col: int) -> int {
    p.data@[row * p.pitch + col] as int
}

/// The byte that component `ch` of the output pixel (`row`, `col`) gets.
pub open spec fn pixel_byte(y: Plane, cb: Plane, cr: Plane, row: int, col: int, ch: int) -> int {
    rgb_component(
        sample(y, row, col),
        sample(cb, row / 2, col / 2),
        sample(cr, row / 2, col / 2),
        ch,
    )
}

/// Offset in the pixel buffer of component `ch` of pixel (`row`, `col`).
pub open spec fn target_offset(pitch: int, row: int, col: int, ch: int) -> int {
    row * pitch + 4 * col + ch
}

/// Whether byte `k` of the pixel buffer is a colour byte of one of the
/// first `rows` x `cols` pixels.
pub open spec fn is_target(pitch: int, rows: int, cols: int, k: int) -> bool {
    exists|row: int, col: int, ch: int|
        0 <= row < rows && 0 <= col < cols && 0 <= ch < 3 && #[trigger] target_offset(
            pitch,
            row,
            col,
            ch,
        ) == k
}

/// Bytes spanned by `rows` rows of `cols` bytes whose starts lie `pitch`
/// bytes apart: none when there are no rows or no columns.
pub open spec fn span_len(pitch: int, rows: int, cols: int) -> int {
    if rows <= 0 || cols <= 0 {
        0
    } else {
        (rows - 1) * pitch + cols
    }
}

/// `new` is the target `old` after converting the `width` x `height`
/// frame in `y`, `cb`, `cr` into it: the colour bytes of every pixel of
/// the whole 2x2 blocks hold the converted colour, and every other byte
/// (alpha bytes, the columns and rows past the blocks, the rest of the
/// buffer) is as it was.
pub open spec fn frame_converted(
    y: Plane,
    cb: Plane,
    cr: Plane,
    width: int,
    height: int,
    pitch: int,
    old: Seq<u8>,
    new: Seq<u8>,
) -> bool {
    let rows = 2 * half_extent(height);
    let cols = 2 * half_extent(width);
    &&& new.len() == old.len()
    &&& forall|row: int, col: int, ch: int|
        0 <= row < rows && 0 <= col < cols && 0 <= ch < 3 ==> new[#[trigger] target_offset(
            pitch,
            row,
            col,
            ch,
        )] as int == pixel_byte(y, cb, cr, row, col, ch)
    &&& forall|k: int|
        0 <= k < old.len() && !is_target(pitch, rows, cols, k) ==> #[trigger] new[k] == old[k]
}

/// Whether a plane of `rows` rows of `cols` bytes, `pitch` apart, lies in
/// `len` bytes.
pub open spec fn plane_fits(len: int, pitch: int, rows: int, cols: int) -> bool {
    span_len(pitch, rows, cols) <= len
}

/// What a conversion of a `width` x `height` frame needs of its planes and
/// of its target: each plane holds the samples that are read, the target
/// holds every byte that is written, and the rows of the target do not
/// overlap.
pub open spec fn frame_fits(
    y: Plane,
    cb: Plane,
    cr: Plane,
    width: int,
    height: int,
    len: int,
    pitch: int,
) -> bool {
    let bw = half_extent(width);
    let bh = half_extent(height);
    bw == 0 || bh == 0 || {
        &&& plane_fits(y.data@.len() as int, y.pitch as int, 2 * bh, 2 * bw)
        &&& plane_fits(cb.data@.len() as int, cb.pitch as int, bh, bw)
        &&& plane_fits(cr.data@.len() as int, cr.pitch as int, bh, bw)
        &&& 8 * bw <= pitch
        &&& plane_fits(len, pitch, 2 * bh, 8 * bw - 1)
    }
}

/// Number of whole 2x2 blocks along an extent of `v` samples.
pub fn half_extent_of(v: i32) -> (n: usize)
    ensures
        n as int == half_extent(v as int),
        v <= 0 ==> n == 0,
        v > 0 ==> 2 * n <= v < 2 * n + 2,
{
    if v <= 0 {
        0
    } else {
        (v / 2) as usize
    }
}

/// A positive extent of `v` samples holds `half_extent(v)` whole pairs and
/// at most one sample more; a non-positive extent holds none.
pub proof fn lemma_half_extent_pairs(v: int)
    ensures
        v <= 0 ==> half_extent(v) == 0,
        v > 0 ==> 2 * half_extent(v) <= v < 2 * half_extent(v) + 2,
        v > 0 ==> 2 * half_extent(v) == v - v % 2,
{
}

/// The luma and chroma samples that pixel (`row`, `col`) reads lie in
/// their planes, and its colour bytes lie in a target of `len` bytes.
pub open spec fn pixel_in_bounds(
    y: Plane,
    cb: Plane,
    cr: Plane,
    len: int,
    pitch: int,
    row: int,
    col: int,
) -> bool {
    &&& row * y.pitch + col < y.data@.len()
    &&& (row / 2) * cb.pitch + col / 2 < cb.data@.len()
    &&& (row / 2) * cr.pitch + col / 2 < cr.data@.len()
    &&& target_offset(pitch, row, col, 2) < len
}

/// Every sample that a converted pixel reads and every colour byte it
/// writes lies in its buffer, and (when anything is converted) a target
/// row is wide enough for the converted pixels, so rows do not overlap.
pub open spec fn reads_and_writes_in_bounds(
    y: Plane,
    cb: Plane,
    cr: Plane,
    width: int,
    height: int,
    len: int,
    pitch: int,
) -> bool {
    &&& (half_extent(width) > 0 && half_extent(height) > 0) ==> 8 * half_extent(width) <= pitch
    &&& forall|row: int, col: int|
        0 <= row < 2 * half_extent(height) && 0 <= col < 2 * half_extent(width)
            ==> #[trigger] pixel_in_bounds(y, cb, cr, len, pitch, row, col)
}

/// `frame_fits` asks exactly that every sample read and every colour byte
/// written lies in its buffer, and that target rows do not overlap; it
/// asks nothing else of the planes' pitches.
pub proof fn lemma_frame_fits_means(
    y: Plane,
    cb: Plane,
    cr: Plane,
    width: int,
    height: int,
    len: int,
    pitch: int,
)
    ensures
        frame_fits(y, cb, cr, width, height, len, pitch) <==> reads_and_writes_in_bounds(
            y,
            cb,
            cr,
            width,
            height,
            len,
            pitch,
        ),
{
    let bw = half_extent(width);
    let bh = half_extent(height);
    if bw > 0 && bh > 0 {
        if frame_fits(y, cb, cr, width, height, len, pitch) {
            assert forall|row: int, col: int|
                0 <= row < 2 * bh && 0 <= col < 2 * bw implies #[trigger] pixel_in_bounds(
                y,
                cb,
                cr,
                len,
                pitch,
                row,
                col,
            ) by {
                lemma_mul_step(row, 2 * bh - 1, y.pitch as int);
                lemma_mul_step(row / 2, bh - 1, cb.pitch as int);
                lemma_mul_step(row / 2, bh - 1, cr.pitch as int);
                lemma_mul_step(row, 2 * bh - 1, pitch);
            }
        } else if reads_and_writes_in_bounds(y, cb, cr, width, height, len, pitch) {
            let row = 2 * bh - 1;
            let col = 2 * bw - 1;
            assert(pixel_in_bounds(y, cb, cr, len, pitch, row, col));
            assert(row / 2 == bh - 1 && col / 2 == bw - 1);
            assert(target_offset(pitch, row, col, 2) == (2 * bh - 1) * pitch + 8 * bw - 2);
            assert((bh - 1) * cb.pitch + bw <= cb.data@.len());
            assert((bh - 1) * cr.pitch + bw <= cr.data@.len());
            assert(frame_fits(y, cb, cr, width, height, len, pitch));
        }
    }
}

/// Bytes spanned by `rows` rows of `cols` bytes, `pitch` apart, or `None`
/// where that count does not fit in a `usize`.
pub fn span(pitch: usize, rows: usize, cols: usize) -> (n: Option<usize>)
    ensures
        n matches Some(v) ==> v as int == span_len(pitch as int, rows as int, cols as int),
        n is None <==> span_len(pitch as int, rows as int, cols as int) > usize::MAX,
{
    if rows == 0 || cols == 0 {
        return Some(0);
    }
    match (rows - 1).checked_mul(pitch) {
        None => {
            proof {
                lemma_mul_step(0, (rows - 1) as int, pitch as int);
            }
            None
        },
        Some(m) => m.checked_add(cols),
    }
}

/// Whether `convert_frame` may run on these planes and on a target of
/// `len` bytes whose rows start `pitch` bytes apart.
pub fn frame_fits_check(
    y: Plane,
    cb: Plane,
    cr: Plane,
    width: i32,
    height: i32,
    len: usize,
    pitch: usize,
) -> (ok: bool)
    ensures
        ok == frame_fits(y, cb, cr, width as int, height as int, len as int, pitch as int),
{
    let bw = half_extent_of(width);
    let bh = half_extent_of(height);
    if bw == 0 || bh == 0 {
        return true;
    }
    proof {
        assert(y.data.len() == y.data@.len() && cb.data.len() == cb.data@.len());
        assert(cr.data.len() == cr.data@.len());
    }
    let fits_y = match span(y.pitch, 2 * bh, 2 * bw) {
        Some(n) => n <= y.data.len(),
        None => false,
    };
    let fits_cb = match span(cb.pitch, bh, bw) {
        Some(n) => n <= cb.data.len(),
        None => false,
    };
    let fits_cr = match span(cr.pitch, bh, bw) {
        Some(n) => n <= cr.data.len(),
        None => false,
    };
    let fits_px = match bw.checked_mul(8) {
        Some(row_bytes) => row_bytes <= pitch && match span(pitch, 2 * bh, row_bytes - 1) {
            Some(n) => n <= len,
            None => false,
        },
        None => false,
    };
    fits_y && fits_cb && fits_cr && fits_px
}

/// Clamps a fixed-point value to a byte, as `channel` says.
fn to_channel(v: i32) -> (c: u8)
    ensures
        c as int == channel(v as int),
{
    if v < 0 {
        0
    } else if v >= 65536 {
        255
    } else {
        (v / 256) as u8
    }
}

/// The three chroma contributions (red, green, blue) of a chroma pair.
fn chroma_terms(cb: u8, cr: u8) -> (t: (i32, i32, i32))
    ensures
        t.0 as int == red_term(cr as int),
        t.1 as int == green_term(cb as int, cr as int),
        t.2 as int == blue_term(cb as int),
{
    let u = cb as i32 - 128;
    let v = cr as i32 - 128;
    (409 * v + 128, 128 - 100 * u - 208 * v, 516 * u + 128)
}

/// Red, green and blue of one pixel from its luma and the chroma
/// contributions of its block.
fn shade(y: u8, t: (i32, i32, i32)) -> (rgb: [u8; 3])
    requires
        -200000 <= t.0 <= 200000,
        -200000 <= t.1 <= 200000,
        -200000 <= t.2 <= 200000,
    ensures
        rgb[0] as int == channel(luma_term(y as int) + t.0),
        rgb[1] as int == channel(luma_term(y as int) + t.1),
        rgb[2] as int == channel(luma_term(y as int) + t.2),
{
    let l = (y as i32 - 16) * 298;
    [to_channel(l + t.0), to_channel(l + t.1), to_channel(l + t.2)]
}

/// With neutral chroma (`cb == cr == 128`) a pixel is a shade of gray:
/// its three components are equal.
pub proof fn lemma_neutral_chroma_is_gray(y: int)
    ensures
        rgb_component(y, 128, 128, 0) == rgb_component(y, 128, 128, 1),
        rgb_component(y, 128, 128, 1) == rgb_component(y, 128, 128, 2),
{
}

/// `channel` never decreases as its argument grows.
pub proof fn lemma_channel_monotone(a: int, b: int)
    requires
        a <= b,
    ensures
        channel(a) <= channel(b),
{
}

/// With the chroma fixed, a brighter luma sample never gives a darker
/// component.
pub proof fn lemma_luma_monotone(y1: int, y2: int, cb: int, cr: int, ch: int)
    requires
        y1 <= y2,
    ensures
        rgb_component(y1, cb, cr, ch) <= rgb_component(y2, cb, cr, ch),
{
    assert(luma_term(y1) <= luma_term(y2));
    lemma_channel_monotone(luma_term(y1) + red_term(cr), luma_term(y2) + red_term(cr));
    lemma_channel_monotone(luma_term(y1) + green_term(cb, cr), luma_term(y2) + green_term(cb, cr));
    lemma_channel_monotone(luma_term(y1) + blue_term(cb), luma_term(y2) + blue_term(cb));
}

/// With luma and Cr fixed, a larger Cb never lowers blue, never raises
/// green and leaves red as it is.
pub proof fn lemma_cb_monotone(y: int, cb1: int, cb2: int, cr: int)
    requires
        cb1 <= cb2,
    ensures
        rgb_component(y, cb1, cr, 0) == rgb_component(y, cb2, cr, 0),
        rgb_component(y, cb2, cr, 1) <= rgb_component(y, cb1, cr, 1),
        rgb_component(y, cb1, cr, 2) <= rgb_component(y, cb2, cr, 2),
{
    lemma_channel_monotone(luma_term(y) + green_term(cb2, cr), luma_term(y) + green_term(cb1, cr));
    lemma_channel_monotone(luma_term(y) + blue_term(cb1), luma_term(y) + blue_term(cb2));
}

/// With luma and Cb fixed, a larger Cr never lowers red, never raises
/// green and leaves blue as it is.
pub proof fn lemma_cr_monotone(y: int, cb: int, cr1: int, cr2: int)
    requires
        cr1 <= cr2,
    ensures
        rgb_component(y, cb, cr1, 0) <= rgb_component(y, cb, cr2, 0),
        rgb_component(y, cb, cr2, 1) <= rgb_component(y, cb, cr1, 1),
        rgb_component(y, cb, cr1, 2) == rgb_component(y, cb, cr2, 2),
{
    lemma_channel_monotone(luma_term(y) + red_term(cr1), luma_term(y) + red_term(cr2));
    lemma_channel_monotone(luma_term(y) + green_term(cb, cr2), luma_term(y) + green_term(cb, cr1));
}

/// Every component lies in `0..=255`.
pub proof fn lemma_component_is_byte(y: int, cb: int, cr: int, ch: int)
    ensures
        0 <= rgb_component(y, cb, cr, ch) <= 255,
{
}

/// Converts one pixel from YUV to RGB.
pub fn yuv_to_rgb(y: u8, cb: u8, cr: u8) -> (rgb: [u8; 3])
    ensures
        forall|ch: int|
            0 <= ch < 3 ==> rgb[ch] as int == rgb_component(y as int, cb as int, cr as int, ch),
{
    shade(y, chroma_terms(cb, cr))
}

/// Writes three colour bytes at `at`, leaving every other byte as it was.
fn put_rgb(pixels: &mut [u8], at: usize, rgb: [u8; 3])
    requires
        at + 3 <= old(pixels)@.len(),
    ensures
        final(pixels)@.len() == old(pixels)@.len(),
        forall|k: int|
            0 <= k < old(pixels)@.len() ==> #[trigger] final(pixels)@[k] == if at <= k < at + 3 {
                rgb[k - at]
            } else {
                old(pixels)@[k]
            },
{
    pixels[at] = rgb[0];
    pixels[at + 1] = rgb[1];
    pixels[at + 2] = rgb[2];
}


/// Pixels converted by the time blocks `(i', j')` with `i' < i`, or
/// `i' == i && j' < j`, are done: pixel (`row`, `col`) lies in block
/// (`row / 2`, `col / 2`).
spec fn done(row: int, col: int, i: int, j: int) -> bool {
    row < 2 * i || (row < 2 * i + 2 && col < 2 * j)
}

/// Byte `k` is a colour byte of a pixel that is done.
spec fn touched(pitch: int, cols: int, i: int, j: int, k: int) -> bool {
    exists|row: int, col: int, ch: int|
        0 <= row && 0 <= col < cols && 0 <= ch < 3 && done(row, col, i, j)
            && #[trigger] target_offset(pitch, row, col, ch) == k
}

/// `cur` is `old` with the pixels that are done converted, and nothing
/// else changed.
spec fn progress(
    y: Plane,
    cb: Plane,
    cr: Plane,
    pitch: int,
    cols: int,
    i: int,
    j: int,
    old: Seq<u8>,
    cur: Seq<u8>,
) -> bool {
    &&& cur.len() == old.len()
    &&& forall|row: int, col: int, ch: int|
        0 <= row && 0 <= col < cols && 0 <= ch < 3 && done(row, col, i, j)
            ==> cur[#[trigger] target_offset(pitch, row, col, ch)] as int == pixel_byte(
            y,
            cb,
            cr,
            row,
            col,
            ch,
        )
    &&& forall|k: int|
        0 <= k < old.len() && #[trigger] cur[k] != old[k] ==> touched(pitch, cols, i, j, k)
}

/// What byte `k` holds once block (`i`, `j`) is converted over `old`.
spec fn block_byte(
    y: Plane,
    cb: Plane,
    cr: Plane,
    pitch: int,
    i: int,
    j: int,
    old: Seq<u8>,
    k: int,
) -> int {
    let o0 = target_offset(pitch, 2 * i, 2 * j, 0);
    let o1 = target_offset(pitch, 2 * i + 1, 2 * j, 0);
    if o0 <= k < o0 + 3 {
        pixel_byte(y, cb, cr, 2 * i, 2 * j, k - o0)
    } else if o0 + 4 <= k < o0 + 7 {
        pixel_byte(y, cb, cr, 2 * i, 2 * j + 1, k - o0 - 4)
    } else if o1 <= k < o1 + 3 {
        pixel_byte(y, cb, cr, 2 * i + 1, 2 * j, k - o1)
    } else if o1 + 4 <= k < o1 + 7 {
        pixel_byte(y, cb, cr, 2 * i + 1, 2 * j + 1, k - o1 - 4)
    } else {
        old[k] as int
    }
}

proof fn lemma_mul_step(a: int, b: int, p: int)
    by (nonlinear_arith)
    requires
        0 <= a <= b,
        0 <= p,
    ensures
        a * p <= b * p,
        (a + 1) * p == a * p + p,
        0 <= a * p,
{
}

/// A pixel that is done lies outside the two 8-byte runs that block
/// (`i`, `j`) writes.
proof fn lemma_block_apart(pitch: int, cols: int, i: int, j: int, row: int, col: int, ch: int)
    requires
        0 <= row,
        0 <= col < cols,
        0 <= ch < 3,
        0 <= i,
        0 <= j,
        2 * j + 2 <= cols,
        4 * cols <= pitch,
        done(row, col, i, j),
    ensures
        target_offset(pitch, row, col, ch) < target_offset(pitch, 2 * i, 2 * j, 0)
            || target_offset(pitch, row, col, ch) >= target_offset(pitch, 2 * i, 2 * j, 0) + 8,
        target_offset(pitch, row, col, ch) < target_offset(pitch, 2 * i + 1, 2 * j, 0)
            || target_offset(pitch, row, col, ch) >= target_offset(pitch, 2 * i + 1, 2 * j, 0) + 8,
{
    lemma_mul_step(2 * i, 2 * i, pitch);
    if row < 2 * i {
        lemma_mul_step(row, row, pitch);
        lemma_mul_step(row + 1, 2 * i, pitch);
    }
}

/// A colour byte of a pixel that is done lies in the target.
proof fn lemma_done_in_bounds(
    pitch: int,
    bw: int,
    bh: int,
    len: int,
    i: int,
    j: int,
    row: int,
    col: int,
    ch: int,
)
    requires
        0 <= i < bh,
        0 <= j <= bw,
        0 <= row,
        0 <= col < 2 * bw,
        0 <= ch < 3,
        0 <= pitch,
        done(row, col, i, j),
        (2 * bh - 1) * pitch + 8 * bw - 1 <= len,
    ensures
        0 <= target_offset(pitch, row, col, ch) < len,
{
    lemma_mul_step(row, 2 * bh - 1, pitch);
}

/// Converting block (`i`, `j`) carries the progress made so far over to
/// the next block.
proof fn lemma_block_step(
    y: Plane,
    cb: Plane,
    cr: Plane,
    pitch: int,
    bw: int,
    bh: int,
    i: int,
    j: int,
    old: Seq<u8>,
    prev: Seq<u8>,
    next: Seq<u8>,
)
    requires
        0 <= i < bh,
        0 <= j < bw,
        8 * bw <= pitch,
        (2 * bh - 1) * pitch + 8 * bw - 1 <= old.len(),
        progress(y, cb, cr, pitch, 2 * bw, i, j, old, prev),
        next.len() == prev.len(),
        forall|k: int|
            0 <= k < prev.len() ==> #[trigger] next[k] as int == block_byte(
                y,
                cb,
                cr,
                pitch,
                i,
                j,
                prev,
                k,
            ),
    ensures
        progress(y, cb, cr, pitch, 2 * bw, i, j + 1, old, next),
{
    let cols = 2 * bw;
    let o0 = target_offset(pitch, 2 * i, 2 * j, 0);
    let o1 = target_offset(pitch, 2 * i + 1, 2 * j, 0);
    lemma_mul_step(2 * i, 2 * i, pitch);
    assert forall|row: int, col: int, ch: int|
        0 <= row && 0 <= col < cols && 0 <= ch < 3 && done(
            row,
            col,
            i,
            j + 1,
        ) implies next[#[trigger] target_offset(pitch, row, col, ch)] as int == pixel_byte(
        y,
        cb,
        cr,
        row,
        col,
        ch,
    ) by {
        let k = target_offset(pitch, row, col, ch);
        lemma_done_in_bounds(pitch, bw, bh, old.len() as int, i, j + 1, row, col, ch);
        assert(next[k] as int == block_byte(y, cb, cr, pitch, i, j, prev, k));
        if done(row, col, i, j) {
            lemma_block_apart(pitch, cols, i, j, row, col, ch);
        } else {
            assert(row == 2 * i || row == 2 * i + 1);
            assert(col == 2 * j || col == 2 * j + 1);
        }
    }
    assert forall|k: int| 0 <= k < old.len() && #[trigger] next[k] != old[k] implies touched(
        pitch,
        cols,
        i,
        j + 1,
        k,
    ) by {
        assert(next[k] as int == block_byte(y, cb, cr, pitch, i, j, prev, k));
        if o0 <= k < o0 + 3 {
            assert(target_offset(pitch, 2 * i, 2 * j, k - o0) == k);
        } else if o0 + 4 <= k < o0 + 7 {
            assert(target_offset(pitch, 2 * i, 2 * j + 1, k - o0 - 4) == k);
        } else if o1 <= k < o1 + 3 {
            assert(target_offset(pitch, 2 * i + 1, 2 * j, k - o1) == k);
        } else if o1 + 4 <= k < o1 + 7 {
            assert(target_offset(pitch, 2 * i + 1, 2 * j + 1, k - o1 - 4) == k);
        } else {
            assert(prev[k] != old[k]);
            assert(touched(pitch, cols, i, j, k));
            let (row, col, ch) = choose|row: int, col: int, ch: int|
                0 <= row && 0 <= col < cols && 0 <= ch < 3 && done(row, col, i, j)
                    && #[trigger] target_offset(pitch, row, col, ch) == k;
            assert(done(row, col, i, j + 1));
        }
    }
}

/// Finishing row of blocks `i` is starting row of blocks `i + 1`.
proof fn lemma_next_row(
    y: Plane,
    cb: Plane,
    cr: Plane,
    pitch: int,
    bw: int,
    i: int,
    old: Seq<u8>,
    cur: Seq<u8>,
)
    requires
        0 <= i,
        progress(y, cb, cr, pitch, 2 * bw, i, bw, old, cur),
    ensures
        progress(y, cb, cr, pitch, 2 * bw, i + 1, 0, old, cur),
{
    let cols = 2 * bw;
    assert forall|k: int| 0 <= k < old.len() && #[trigger] cur[k] != old[k] implies touched(
        pitch,
        cols,
        i + 1,
        0,
        k,
    ) by {
        let (row, col, ch) = choose|row: int, col: int, ch: int|
            0 <= row && 0 <= col < cols && 0 <= ch < 3 && done(row, col, i, bw)
                && #[trigger] target_offset(pitch, row, col, ch) == k;
        assert(done(row, col, i + 1, 0));
    }
    assert forall|row: int, col: int, ch: int|
        0 <= row && 0 <= col < cols && 0 <= ch < 3 && done(
            row,
            col,
            i + 1,
            0,
        ) implies cur[#[trigger] target_offset(pitch, row, col, ch)] as int == pixel_byte(
        y,
        cb,
        cr,
        row,
        col,
        ch,
    ) by {
        assert(done(row, col, i, bw));
    }
}

/// Once every row of blocks is done, the conversion is complete.
proof fn lemma_finished(
    y: Plane,
    cb: Plane,
    cr: Plane,
    pitch: int,
    bw: int,
    bh: int,
    old: Seq<u8>,
    cur: Seq<u8>,
)
    requires
        progress(y, cb, cr, pitch, 2 * bw, bh, 0, old, cur),
    ensures
        forall|row: int, col: int, ch: int|
            0 <= row < 2 * bh && 0 <= col < 2 * bw && 0 <= ch < 3
                ==> cur[#[trigger] target_offset(pitch, row, col, ch)] as int == pixel_byte(
                y,
                cb,
                cr,
                row,
                col,
                ch,
            ),
        forall|k: int|
            0 <= k < old.len() && !is_target(pitch, 2 * bh, 2 * bw, k) ==> #[trigger] cur[k]
                == old[k],
{
    let cols = 2 * bw;
    assert forall|row: int, col: int, ch: int|
        0 <= row < 2 * bh && 0 <= col < cols && 0 <= ch < 3 implies cur[#[trigger] target_offset(
        pitch,
        row,
        col,
        ch,
    )] as int == pixel_byte(y, cb, cr, row, col, ch) by {
        assert(done(row, col, bh, 0));
    }
    assert forall|k: int|
        0 <= k < old.len() && !is_target(pitch, 2 * bh, cols, k) implies #[trigger] cur[k]
        == old[k] by {
        if cur[k] != old[k] {
            let (row, col, ch) = choose|row: int, col: int, ch: int|
                0 <= row && 0 <= col < cols && 0 <= ch < 3 && done(row, col, bh, 0)
                    && #[trigger] target_offset(pitch, row, col, ch) == k;
            assert(is_target(pitch, 2 * bh, cols, k));
        }
    }
}

/// Converts block (`i`, `j`): the 2x2 pixels at rows `2i`, `2i + 1` and
/// columns `2j`, `2j + 1`.
fn convert_block(
    y: Plane,
    cb: Plane,
    cr: Plane,
    i: Ghost<int>,
    j: usize,
    bases: (usize, usize, usize, usize),
    pixels: &mut [u8],
    pitch: usize,
)
    requires
        0 <= i@,
        bases.0 == 2 * i@ * y.pitch,
        bases.1 == i@ * cb.pitch,
        bases.2 == i@ * cr.pitch,
        bases.3 == 2 * i@ * pitch,
        (2 * i@ + 1) * y.pitch == bases.0 + y.pitch,
        (2 * i@ + 1) * pitch == bases.3 + pitch,
        bases.0 + y.pitch + 2 * j + 2 <= y.data@.len(),
        bases.1 + j < cb.data@.len(),
        bases.2 + j < cr.data@.len(),
        8 * j + 8 <= pitch,
        bases.3 + pitch + 8 * j + 7 <= old(pixels)@.len(),
    ensures
        final(pixels)@.len() == old(pixels)@.len(),
        forall|k: int|
            0 <= k < old(pixels)@.len() ==> #[trigger] final(pixels)@[k] as int == block_byte(
                y,
                cb,
                cr,
                pitch as int,
                i@,
                j as int,
                old(pixels)@,
                k,
            ),
{
    let (ybase, cbbase, crbase, obase) = bases;
    proof {
        assert(y.data.len() == y.data@.len() && cb.data.len() == cb.data@.len());
        assert(cr.data.len() == cr.data@.len() && pixels.len() == pixels@.len());
    }
    let t = chroma_terms(cb.data[cbbase + j], cr.data[crbase + j]);
    let a = shade(y.data[ybase + 2 * j], t);
    let b = shade(y.data[ybase + 2 * j + 1], t);
    let c = shade(y.data[ybase + y.pitch + 2 * j], t);
    let d = shade(y.data[ybase + y.pitch + 2 * j + 1], t);
    let o0 = obase + 8 * j;
    let o1 = obase + pitch + 8 * j;
    put_rgb(pixels, o0, a);
    put_rgb(pixels, o0 + 4, b);
    put_rgb(pixels, o1, c);
    put_rgb(pixels, o1 + 4, d);
    proof {
        let ii = i@;
        let jj = j as int;
        assert((2 * ii) / 2 == ii && (2 * ii + 1) / 2 == ii);
        assert((2 * jj) / 2 == jj && (2 * jj + 1) / 2 == jj);
        assert(o0 == target_offset(pitch as int, 2 * ii, 2 * jj, 0));
        assert(o1 == target_offset(pitch as int, 2 * ii + 1, 2 * jj, 0));
        assert(sample(y, 2 * ii, 2 * jj) == y.data@[ybase + 2 * j]);
        assert(sample(y, 2 * ii, 2 * jj + 1) == y.data@[ybase + 2 * j + 1]);
        assert(sample(y, 2 * ii + 1, 2 * jj) == y.data@[ybase + y.pitch + 2 * j]);
        assert(sample(y, 2 * ii + 1, 2 * jj + 1) == y.data@[ybase + y.pitch + 2 * j + 1]);
        assert(sample(cb, ii, jj) == cb.data@[cbbase + j]);
        assert(sample(cr, ii, jj) == cr.data@[crbase + j]);
    }
}

/// Converts the `width` x `height` frame held in the planes `y`, `cb`,
/// `cr` into `pixels`, whose rows start `pitch` bytes apart.  Only whole
/// 2x2 blocks are converted; the alpha byte of each pixel, and every byte
/// outside the converted pixels, stay as they were.
pub fn convert_frame(
    y: Plane,
    cb: Plane,
    cr: Plane,
    width: i32,
    height: i32,
    pixels: &mut [u8],
    pitch: usize,
)
    requires
        frame_fits(y, cb, cr, width as int, height as int, old(pixels)@.len() as int, pitch as int),
    ensures
        frame_converted(
            y,
            cb,
            cr,
            width as int,
            height as int,
            pitch as int,
            old(pixels)@,
            final(pixels)@,
        ),
{
    let bw = half_extent_of(width);
    let bh = half_extent_of(height);
    if bw == 0 || bh == 0 {
        proof {
            assert forall|k: int|
                0 <= k < old(pixels)@.len() && !is_target(
                    pitch as int,
                    2 * bh,
                    2 * bw,
                    k,
                ) implies #[trigger] pixels@[k] == old(pixels)@[k] by {}
        }
        return ;
    }
    let ghost old_px = pixels@;
    let ghost len = old_px.len() as int;
    let ghost p = pitch as int;
    let mut ybase: usize = 0;
    let mut cbbase: usize = 0;
    let mut crbase: usize = 0;
    let mut obase: usize = 0;
    proof {
        assert(y.data.len() == y.data@.len() && cb.data.len() == cb.data@.len());
        assert(cr.data.len() == cr.data@.len() && pixels.len() == pixels@.len());
        assert(2 * 0 * y.pitch == 0 && 0 * cb.pitch == 0 && 0 * cr.pitch == 0 && 2 * 0 * pitch == 0)
            by (nonlinear_arith);
        assert(progress(y, cb, cr, p, 2 * bw, 0, 0, old_px, pixels@));
    }
    for i in 0..bh
        invariant
            bw > 0,
            bh > 0,
            p == pitch,
            len == old_px.len(),
            (2 * bh - 1) * y.pitch + 2 * bw <= y.data@.len(),
            (bh - 1) * cb.pitch + bw <= cb.data@.len(),
            (bh - 1) * cr.pitch + bw <= cr.data@.len(),
            8 * bw <= pitch,
            y.data@.len() <= usize::MAX && cb.data@.len() <= usize::MAX && cr.data@.len()
                <= usize::MAX,
            len <= usize::MAX,
            (2 * bh - 1) * pitch + 8 * bw - 1 <= len,
            i < bh ==> ybase == 2 * i * y.pitch && cbbase == i * cb.pitch && crbase == i
                * cr.pitch && obase == 2 * i * pitch,
            progress(y, cb, cr, p, 2 * bw, i as int, 0, old_px, pixels@),
    {
        proof {
            lemma_mul_step(2 * i as int, 2 * bh - 2, y.pitch as int);
            lemma_mul_step(2 * i as int + 1, 2 * bh - 1, y.pitch as int);
            lemma_mul_step(i as int, bh - 1, cb.pitch as int);
            lemma_mul_step(i as int, bh - 1, cr.pitch as int);
            lemma_mul_step(2 * i as int, 2 * bh - 2, p);
            lemma_mul_step(2 * i as int + 1, 2 * bh - 1, p);
        }
        for j in 0..bw
            invariant
                bw > 0,
                bh > 0,
                i < bh,
                p == pitch,
                len == old_px.len(),
                (2 * bh - 1) * y.pitch + 2 * bw <= y.data@.len(),
                (bh - 1) * cb.pitch + bw <= cb.data@.len(),
                (bh - 1) * cr.pitch + bw <= cr.data@.len(),
                8 * bw <= pitch,
                y.data@.len() <= usize::MAX && cb.data@.len() <= usize::MAX && cr.data@.len()
                    <= usize::MAX,
                len <= usize::MAX,
                (2 * bh - 1) * pitch + 8 * bw - 1 <= len,
                ybase == 2 * i * y.pitch,
                cbbase == i * cb.pitch,
                crbase == i * cr.pitch,
                obase == 2 * i * pitch,
                (2 * i + 1) * y.pitch == ybase + y.pitch,
                (2 * i + 1) * pitch == obase + pitch,
                (2 * i + 1) * y.pitch <= (2 * bh - 1) * y.pitch,
                (2 * i + 1) * pitch <= (2 * bh - 1) * pitch,
                i * cb.pitch <= (bh - 1) * cb.pitch,
                i * cr.pitch <= (bh - 1) * cr.pitch,
                progress(y, cb, cr, p, 2 * bw, i as int, j as int, old_px, pixels@),
        {
            let ghost prev = pixels@;
            convert_block(
                y,
                cb,
                cr,
                Ghost(i as int),
                j,
                (ybase, cbbase, crbase, obase),
                pixels,
                pitch,
            );
            proof {
                lemma_block_step(
                    y,
                    cb,
                    cr,
                    p,
                    bw as int,
                    bh as int,
                    i as int,
                    j as int,
                    old_px,
                    prev,
                    pixels@,
                );
            }
        }
        proof {
            lemma_next_row(y, cb, cr, p, bw as int, i as int, old_px, pixels@);
        }
        if i + 1 < bh {
            proof {
                lemma_mul_step(2 * i as int + 2, 2 * bh - 1, y.pitch as int);
                lemma_mul_step(2 * i as int + 1, 2 * i + 1, y.pitch as int);
                lemma_mul_step(i as int + 1, bh - 1, cb.pitch as int);
                lemma_mul_step(i as int, i as int, cb.pitch as int);
                lemma_mul_step(i as int + 1, bh - 1, cr.pitch as int);
                lemma_mul_step(i as int, i as int, cr.pitch as int);
                lemma_mul_step(2 * i as int + 2, 2 * bh - 1, p);
                lemma_mul_step(2 * i as int + 1, 2 * i + 1, p);
            }
            ybase = ybase + 2 * y.pitch;
            cbbase = cbbase + cb.pitch;
            crbase = crbase + cr.pitch;
            obase = obase + 2 * pitch;
        }
    }
    proof {
        lemma_finished(y, cb, cr, p, bw as int, bh as int, old_px, pixels@);
    }
}

/// After a conversion every pixel of the frame that lies in a whole 2x2
/// block (rows below `height - height % 2`, columns below
/// `width - width % 2`) holds its converted colour.
pub proof fn lemma_every_whole_block_converted(
    y: Plane,
    cb: Plane,
    cr: Plane,
    width: int,
    height: int,
    pitch: int,
    old: Seq<u8>,
    new: Seq<u8>,
    row: int,
    col: int,
    ch: int,
)
    requires
        frame_converted(y, cb, cr, width, height, pitch, old, new),
        0 <= row < height - height % 2,
        0 <= col < width - width % 2,
        0 <= ch < 3,
    ensures
        new[target_offset(pitch, row, col, ch)] as int == pixel_byte(y, cb, cr, row, col, ch),
{
    lemma_half_extent_pairs(width);
    lemma_half_extent_pairs(height);
}

/// A conversion leaves the alpha byte of every converted pixel as it was
/// (the last pixel's alpha byte may lie past the end of the target).
pub proof fn lemma_alpha_kept(
    y: Plane,
    cb: Plane,
    cr: Plane,
    width: int,
    height: int,
    pitch: int,
    old: Seq<u8>,
    new: Seq<u8>,
    row: int,
    col: int,
)
    requires
        frame_fits(y, cb, cr, width, height, old.len() as int, pitch),
        frame_converted(y, cb, cr, width, height, pitch, old, new),
        0 <= row < 2 * half_extent(height),
        0 <= col < 2 * half_extent(width),
    ensures
        0 <= target_offset(pitch, row, col, 3),
        target_offset(pitch, row, col, 3) < old.len() ==> new[target_offset(pitch, row, col, 3)]
            == old[target_offset(pitch, row, col, 3)],
{
    let rows = 2 * half_extent(height);
    let cols = 2 * half_extent(width);
    let k = target_offset(pitch, row, col, 3);
    lemma_mul_step(row, rows - 1, pitch);
    if is_target(pitch, rows, cols, k) {
        let (r, c, h) = choose|r: int, c: int, h: int|
            0 <= r < rows && 0 <= c < cols && 0 <= h < 3 && #[trigger] target_offset(pitch, r, c, h)
                == k;
        if r < row {
            lemma_mul_step(r, r, pitch);
            lemma_mul_step(r + 1, row, pitch);
        } else if r > row {
            lemma_mul_step(row, row, pitch);
            lemma_mul_step(row + 1, r, pitch);
        }
    }
}

/// A conversion's result is determined by the frame and the old contents
/// of the target.
pub proof fn lemma_conversion_determined(
    y: Plane,
    cb: Plane,
    cr: Plane,
    width: int,
    height: int,
    pitch: int,
    old: Seq<u8>,
    a: Seq<u8>,
    b: Seq<u8>,
)
    requires
        frame_converted(y, cb, cr, width, height, pitch, old, a),
        frame_converted(y, cb, cr, width, height, pitch, old, b),
    ensures
        a == b,
{
    let rows = 2 * half_extent(height);
    let cols = 2 * half_extent(width);
    assert forall|k: int| 0 <= k < a.len() implies a[k] == b[k] by {
        if is_target(pitch, rows, cols, k) {
            let (r, c, h) = choose|r: int, c: int, h: int|
                0 <= r < rows && 0 <= c < cols && 0 <= h < 3 && #[trigger] target_offset(
                    pitch,
                    r,
                    c,
                    h,
                ) == k;
            assert(a[target_offset(pitch, r, c, h)] as int == pixel_byte(y, cb, cr, r, c, h));
            assert(b[target_offset(pitch, r, c, h)] as int == pixel_byte(y, cb, cr, r, c, h));
        }
    }
    assert(a =~= b);
}

/// `q` is the plane `p` with the byte at `idx` raised (or kept) and every
/// other byte as it was.
pub open spec fn raised_at(p: Plane, q: Plane, idx: int) -> bool {
    &&& q.pitch == p.pitch
    &&& q.data@.len() == p.data@.len()
    &&& 0 <= idx < p.data@.len()
    &&& p.data@[idx] <= q.data@[idx]
    &&& forall|k: int| 0 <= k < p.data@.len() && k != idx ==> #[trigger] q.data@[k] == p.data@[k]
}

/// Raising one luma byte never darkens any component of the pixels that
/// read it, and changes no other byte of the target.
pub proof fn lemma_raise_luma(
    y: Plane,
    y2: Plane,
    cb: Plane,
    cr: Plane,
    width: int,
    height: int,
    pitch: int,
    old: Seq<u8>,
    a: Seq<u8>,
    b: Seq<u8>,
    idx: int,
)
    requires
        raised_at(y, y2, idx),
        frame_fits(y, cb, cr, width, height, old.len() as int, pitch),
        frame_converted(y, cb, cr, width, height, pitch, old, a),
        frame_converted(y2, cb, cr, width, height, pitch, old, b),
    ensures
        b.len() == a.len(),
        forall|row: int, col: int, ch: int|
            0 <= row < 2 * half_extent(height) && 0 <= col < 2 * half_extent(width) && 0 <= ch < 3
                ==> if row * y.pitch + col == idx {
                a[#[trigger] target_offset(pitch, row, col, ch)] <= b[target_offset(
                    pitch,
                    row,
                    col,
                    ch,
                )]
            } else {
                a[target_offset(pitch, row, col, ch)] == b[target_offset(pitch, row, col, ch)]
            },
        forall|k: int|
            0 <= k < old.len() && !is_target(pitch, 2 * half_extent(height), 2 * half_extent(width), k)
                ==> #[trigger] b[k] == a[k],
{
    let bw = half_extent(width);
    let bh = half_extent(height);
    assert forall|row: int, col: int, ch: int|
        0 <= row < 2 * bh && 0 <= col < 2 * bw && 0 <= ch < 3 implies if row * y.pitch + col
        == idx {
        a[#[trigger] target_offset(pitch, row, col, ch)] <= b[target_offset(pitch, row, col, ch)]
    } else {
        a[target_offset(pitch, row, col, ch)] == b[target_offset(pitch, row, col, ch)]
    } by {
        let t = target_offset(pitch, row, col, ch);
        assert(a[t] as int == pixel_byte(y, cb, cr, row, col, ch));
        assert(b[t] as int == pixel_byte(y2, cb, cr, row, col, ch));
        lemma_mul_step(row, 2 * bh - 1, y.pitch as int);
        let i = row * y.pitch + col;
        if i == idx {
            lemma_luma_monotone(
                sample(y, row, col),
                sample(y2, row, col),
                sample(cb, row / 2, col / 2),
                sample(cr, row / 2, col / 2),
                ch,
            );
        } else {
            assert(y2.data@[i] == y.data@[i]);
        }
    }
}

/// Raising one Cb byte never lowers blue, never raises green and keeps red
/// of the pixels of the block that reads it, and changes no other byte of
/// the target.
pub proof fn lemma_raise_cb(
    y: Plane,
    cb: Plane,
    cb2: Plane,
    cr: Plane,
    width: int,
    height: int,
    pitch: int,
    old: Seq<u8>,
    a: Seq<u8>,
    b: Seq<u8>,
    idx: int,
)
    requires
        raised_at(cb, cb2, idx),
        frame_fits(y, cb, cr, width, height, old.len() as int, pitch),
        frame_converted(y, cb, cr, width, height, pitch, old, a),
        frame_converted(y, cb2, cr, width, height, pitch, old, b),
    ensures
        b.len() == a.len(),
        forall|row: int, col: int, ch: int|
            0 <= row < 2 * half_extent(height) && 0 <= col < 2 * half_extent(width) && 0 <= ch < 3
                ==> if (row / 2) * cb.pitch + col / 2 == idx {
                &&& ch == 0 ==> a[#[trigger] target_offset(pitch, row, col, ch)] == b[target_offset(
                    pitch,
                    row,
                    col,
                    ch,
                )]
                &&& ch == 1 ==> b[target_offset(pitch, row, col, ch)] <= a[target_offset(
                    pitch,
                    row,
                    col,
                    ch,
                )]
                &&& ch == 2 ==> a[target_offset(pitch, row, col, ch)] <= b[target_offset(
                    pitch,
                    row,
                    col,
                    ch,
                )]
            } else {
                a[target_offset(pitch, row, col, ch)] == b[target_offset(pitch, row, col, ch)]
            },
        forall|k: int|
            0 <= k < old.len() && !is_target(pitch, 2 * half_extent(height), 2 * half_extent(width), k)
                ==> #[trigger] b[k] == a[k],
{
    let bw = half_extent(width);
    let bh = half_extent(height);
    assert forall|row: int, col: int, ch: int|
        0 <= row < 2 * bh && 0 <= col < 2 * bw && 0 <= ch < 3 implies if (row / 2) * cb.pitch + col
        / 2 == idx {
        &&& ch == 0 ==> a[#[trigger] target_offset(pitch, row, col, ch)] == b[target_offset(
            pitch,
            row,
            col,
            ch,
        )]
        &&& ch == 1 ==> b[target_offset(pitch, row, col, ch)] <= a[target_offset(
            pitch,
            row,
            col,
            ch,
        )]
        &&& ch == 2 ==> a[target_offset(pitch, row, col, ch)] <= b[target_offset(
            pitch,
            row,
            col,
            ch,
        )]
    } else {
        a[target_offset(pitch, row, col, ch)] == b[target_offset(pitch, row, col, ch)]
    } by {
        let t = target_offset(pitch, row, col, ch);
        assert(a[t] as int == pixel_byte(y, cb, cr, row, col, ch));
        assert(b[t] as int == pixel_byte(y, cb2, cr, row, col, ch));
        lemma_mul_step(row / 2, bh - 1, cb.pitch as int);
        let i = (row / 2) * cb.pitch + col / 2;
        if i == idx {
            lemma_cb_monotone(
                sample(y, row, col),
                sample(cb, row / 2, col / 2),
                sample(cb2, row / 2, col / 2),
                sample(cr, row / 2, col / 2),
            );
        } else {
            assert(cb2.data@[i] == cb.data@[i]);
        }
    }
}

/// Raising one Cr byte never lowers red, never raises green and keeps blue
/// of the pixels of the block that reads it, and changes no other byte of
/// the target.
pub proof fn lemma_raise_cr(
    y: Plane,
    cb: Plane,
    cr: Plane,
    cr2: Plane,
    width: int,
    height: int,
    pitch: int,
    old: Seq<u8>,
    a: Seq<u8>,
    b: Seq<u8>,
    idx: int,
)
    requires
        raised_at(cr, cr2, idx),
        frame_fits(y, cb, cr, width, height, old.len() as int, pitch),
        frame_converted(y, cb, cr, width, height, pitch, old, a),
        frame_converted(y, cb, cr2, width, height, pitch, old, b),
    ensures
        b.len() == a.len(),
        forall|row: int, col: int, ch: int|
            0 <= row < 2 * half_extent(height) && 0 <= col < 2 * half_extent(width) && 0 <= ch < 3
                ==> if (row / 2) * cr.pitch + col / 2 == idx {
                &&& ch == 0 ==> a[#[trigger] target_offset(pitch, row, col, ch)] <= b[target_offset(
                    pitch,
                    row,
                    col,
                    ch,
                )]
                &&& ch == 1 ==> b[target_offset(pitch, row, col, ch)] <= a[target_offset(
                    pitch,
                    row,
                    col,
                    ch,
                )]
                &&& ch == 2 ==> a[target_offset(pitch, row, col, ch)] == b[target_offset(
                    pitch,
                    row,
                    col,
                    ch,
                )]
            } else {
                a[target_offset(pitch, row, col, ch)] == b[target_offset(pitch, row, col, ch)]
            },
        forall|k: int|
            0 <= k < old.len() && !is_target(pitch, 2 * half_extent(height), 2 * half_extent(width), k)
                ==> #[trigger] b[k] == a[k],
{
    let bw = half_extent(width);
    let bh = half_extent(height);
    assert forall|row: int, col: int, ch: int|
        0 <= row < 2 * bh && 0 <= col < 2 * bw && 0 <= ch < 3 implies if (row / 2) * cr.pitch + col
        / 2 == idx {
        &&& ch == 0 ==> a[#[trigger] target_offset(pitch, row, col, ch)] <= b[target_offset(
            pitch,
            row,
            col,
            ch,
        )]
        &&& ch == 1 ==> b[target_offset(pitch, row, col, ch)] <= a[target_offset(
            pitch,
            row,
            col,
            ch,
        )]
        &&& ch == 2 ==> a[target_offset(pitch, row, col, ch)] == b[target_offset(
            pitch,
            row,
            col,
            ch,
        )]
    } else {
        a[target_offset(pitch, row, col, ch)] == b[target_offset(pitch, row, col, ch)]
    } by {
        let t = target_offset(pitch, row, col, ch);
        assert(a[t] as int == pixel_byte(y, cb, cr, row, col, ch));
        assert(b[t] as int == pixel_byte(y, cb, cr2, row, col, ch));
        lemma_mul_step(row / 2, bh - 1, cr.pitch as int);
        let i = (row / 2) * cr.pitch + col / 2;
        if i == idx {
            lemma_cr_monotone(
                sample(y, row, col),
                sample(cb, row / 2, col / 2),
                sample(cr, row / 2, col / 2),
                sample(cr2, row / 2, col / 2),
            );
        } else {
            assert(cr2.data@[i] == cr.data@[i]);
        }
    }
}

/// Converting the same frame again changes nothing.
pub proof fn lemma_conversion_idempotent(
    y: Plane,
    cb: Plane,
    cr: Plane,
    width: int,
    height: int,
    pitch: int,
    old: Seq<u8>,
    once: Seq<u8>,
    twice: Seq<u8>,
)
    requires
        frame_converted(y, cb, cr, width, height, pitch, old, once),
        frame_converted(y, cb, cr, width, height, pitch, once, twice),
    ensures
        twice == once,
{
    let rows = 2 * half_extent(height);
    let cols = 2 * half_extent(width);
    assert forall|k: int| 0 <= k < once.len() implies twice[k] == once[k] by {
        if is_target(pitch, rows, cols, k) {
            let (r, c, h) = choose|r: int, c: int, h: int|
                0 <= r < rows && 0 <= c < cols && 0 <= h < 3 && #[trigger] target_offset(
                    pitch,
                    r,
                    c,
                    h,
                ) == k;
            assert(once[target_offset(pitch, r, c, h)] as int == pixel_byte(y, cb, cr, r, c, h));
            assert(twice[target_offset(pitch, r, c, h)] as int == pixel_byte(y, cb, cr, r, c, h));
        }
    }
    assert(twice =~= once);
}

} // verus!
