use vstd::prelude::*;
use crate::pixel::{ImageModel, PixelBuffer, Rgba, lemma_mul_u32_fits};

verus! {

/// First index of part `i` when `total` items are split into `parts` parts.
pub open spec fn span_start(i: int, total: int, parts: int) -> int {
    i * total / parts
}

/// One past the last index of part `i`; a part that would be empty is
/// widened to the single item at its start.
pub open spec fn span_end(i: int, total: int, parts: int) -> int {
    let e = (i + 1) * total / parts;
    if e > span_start(i, total, parts) {
        e
    } else {
        span_start(i, total, parts) + 1
    }
}

/// Weighted luminance of a pixel, scaled by 1000 (0.299 r + 0.587 g + 0.114 b).
pub open spec fn luma_of(p: Rgba) -> int {
    299 * p.r + 587 * p.g + 114 * p.b
}

/// Sum of `f` over the pixels of row `y` with `x0 <= x < x1`.
pub open spec fn row_sum(img: ImageModel, y: int, x0: int, x1: int, f: spec_fn(Rgba) -> int) -> int
    decreases x1 - x0,
{
    if x1 <= x0 {
        0
    } else {
        row_sum(img, y, x0, x1 - 1, f) + f(img.at(x1 - 1, y))
    }
}

/// Sum of `f` over the pixels with `x0 <= x < x1` and `y0 <= y < y1`.
pub open spec fn rect_sum(
    img: ImageModel,
    x0: int,
    x1: int,
    y0: int,
    y1: int,
    f: spec_fn(Rgba) -> int,
) -> int
    decreases y1 - y0,
{
    if y1 <= y0 {
        0
    } else {
        rect_sum(img, x0, x1, y0, y1 - 1, f) + row_sum(img, y1 - 1, x0, x1, f)
    }
}

/// `p / q` rounded to the nearest integer, halves rounded up.
pub open spec fn round_half_up(p: int, q: int) -> int {
    (2 * p + q) / (2 * q)
}

/// Grid height that keeps the image's look for `gw` columns when a glyph is
/// `num / den` times as wide as it is tall; at least 1.
pub open spec fn derived_height(gw: int, w: int, h: int, num: int, den: int) -> int {
    let v = round_half_up(gw * h * num, w * den);
    if v < 1 {
        1
    } else {
        v
    }
}

/// Channel sums over one block of pixels.
pub struct BlockSums {
    pub luma: u128,
    pub r: u128,
    pub g: u128,
    pub b: u128,
    pub a: u128,
    pub count: u64,
}

pub open spec fn red(p: Rgba) -> int {
    p.r as int
}

pub open spec fn green(p: Rgba) -> int {
    p.g as int
}

pub open spec fn blue(p: Rgba) -> int {
    p.b as int
}

pub open spec fn alpha(p: Rgba) -> int {
    p.a as int
}

pub open spec fn luma(p: Rgba) -> int {
    luma_of(p)
}

/// The block `[x0, x1) x [y0, y1)` and its sums agree.
pub open spec fn sums_of(s: BlockSums, img: ImageModel, x0: int, x1: int, y0: int, y1: int) -> bool {
    &&& s.luma == rect_sum(img, x0, x1, y0, y1, |p: Rgba| luma(p))
    &&& s.r == rect_sum(img, x0, x1, y0, y1, |p: Rgba| red(p))
    &&& s.g == rect_sum(img, x0, x1, y0, y1, |p: Rgba| green(p))
    &&& s.b == rect_sum(img, x0, x1, y0, y1, |p: Rgba| blue(p))
    &&& s.a == rect_sum(img, x0, x1, y0, y1, |p: Rgba| alpha(p))
    &&& s.count == (y1 - y0) * (x1 - x0)
}

pub proof fn lemma_progress(k: int, bw: int, j: int, bh: int)
    requires
        0 <= j < bw,
        0 <= k < bh,
    ensures
        k * bw + j + 1 <= bw * bh,
        k * bw + bw == (k + 1) * bw,
{
    assert(k * bw + j + 1 <= bw * bh) by (nonlinear_arith)
        requires
            0 <= j < bw,
            0 <= k < bh,
    ;
    assert(k * bw + bw == (k + 1) * bw) by (nonlinear_arith);
}

/// Each part starts inside `[0, total)` and ends after its start, at most
/// at `total`.
pub proof fn lemma_span_bounds(i: int, total: int, parts: int)
    requires
        0 <= i < parts,
        0 < total,
    ensures
        0 <= span_start(i, total, parts) < span_end(i, total, parts) <= total,
{
    assert(0 <= i * total / parts < total) by (nonlinear_arith)
        requires
            0 <= i < parts,
            0 < total,
    ;
    assert((i + 1) * total / parts <= total) by (nonlinear_arith)
        requires
            0 <= i < parts,
            0 < total,
    ;
}

/// Bounds of part `i` of `total` items split into `parts`; see `span_start`
/// and `span_end`.
pub fn block_span(i: u32, total: u32, parts: u32) -> (r: (u32, u32))
    requires
        i < parts,
        0 < total,
    ensures
        r.0 == span_start(i as int, total as int, parts as int),
        r.1 == span_end(i as int, total as int, parts as int),
        r.0 < r.1 <= total,
{
    proof {
        lemma_mul_u32_fits(i as int, total as int);
        lemma_mul_u32_fits(i as int + 1, total as int);
        lemma_span_bounds(i as int, total as int, parts as int);
    }
    let start: u64 = i as u64 * total as u64 / parts as u64;
    let end: u64 = (i as u64 + 1) * total as u64 / parts as u64;
    if end > start {
        (start as u32, end as u32)
    } else {
        (start as u32, start as u32 + 1)
    }
}

/// Sums the channels of the pixels with `x0 <= x < x1`, `y0 <= y < y1`.
pub fn sum_block(buf: &PixelBuffer, x0: u32, x1: u32, y0: u32, y1: u32) -> (s: BlockSums)
    requires
        x0 < x1 <= buf@.width,
        y0 < y1 <= buf@.height,
    ensures
        sums_of(s, buf@, x0 as int, x1 as int, y0 as int, y1 as int),
        s.luma <= 255000 * s.count,
        s.r <= 255 * s.count,
        s.g <= 255 * s.count,
        s.b <= 255 * s.count,
        s.a <= 255 * s.count,
        0 < s.count,
{
    let ghost img = buf@;
    let bw: u32 = x1 - x0;
    let bh: u32 = y1 - y0;
    let mut st = BlockSums { luma: 0, r: 0, g: 0, b: 0, a: 0, count: 0 };
    let mut y: u32 = y0;
    while y < y1
        invariant
            img == buf@,
            x0 < x1 <= buf@.width,
            y0 <= y <= y1 <= buf@.height,
            bw == x1 - x0,
            bh == y1 - y0,
            sums_of(st, img, x0 as int, x1 as int, y0 as int, y as int),
            st.luma <= 255000 * st.count,
            st.r <= 255 * st.count,
            st.g <= 255 * st.count,
            st.b <= 255 * st.count,
            st.a <= 255 * st.count,
        decreases y1 - y,
    {
        let mut x: u32 = x0;
        let ghost row_start = st;
        while x < x1
            invariant
                img == buf@,
                x0 <= x <= x1 <= buf@.width,
                y0 <= y < y1 <= buf@.height,
                bw == x1 - x0,
                bh == y1 - y0,
                sums_of(row_start, img, x0 as int, x1 as int, y0 as int, y as int),
                st.luma == row_start.luma + row_sum(img, y as int, x0 as int, x as int, |p: Rgba| luma(p)),
                st.r == row_start.r + row_sum(img, y as int, x0 as int, x as int, |p: Rgba| red(p)),
                st.g == row_start.g + row_sum(img, y as int, x0 as int, x as int, |p: Rgba| green(p)),
                st.b == row_start.b + row_sum(img, y as int, x0 as int, x as int, |p: Rgba| blue(p)),
                st.a == row_start.a + row_sum(img, y as int, x0 as int, x as int, |p: Rgba| alpha(p)),
                st.count == (y - y0) * bw + (x - x0),
                st.luma <= 255000 * st.count,
                st.r <= 255 * st.count,
                st.g <= 255 * st.count,
                st.b <= 255 * st.count,
                st.a <= 255 * st.count,
            decreases x1 - x,
        {
            let p: Rgba = buf.pixel(x, y);
            proof {
                lemma_progress((y - y0) as int, bw as int, (x - x0) as int, bh as int);
                lemma_mul_u32_fits(bw as int, bh as int);
            }
            st.luma = st.luma + 299 * p.r as u128 + 587 * p.g as u128 + 114 * p.b as u128;
            st.r = st.r + p.r as u128;
            st.g = st.g + p.g as u128;
            st.b = st.b + p.b as u128;
            st.a = st.a + p.a as u128;
            st.count = st.count + 1;
            x = x + 1;
        }
        proof {
            lemma_progress((y - y0) as int, bw as int, 0, bh as int);
            let (a, b, c, d) = (x0 as int, x1 as int, y0 as int, y as int);
            assert(rect_sum(img, a, b, c, d + 1, |p: Rgba| luma(p)) == rect_sum(img, a, b, c, d, |p: Rgba| luma(p)) + row_sum(img, d, a, b, |p: Rgba| luma(p)));
            assert(rect_sum(img, a, b, c, d + 1, |p: Rgba| red(p)) == rect_sum(img, a, b, c, d, |p: Rgba| red(p)) + row_sum(img, d, a, b, |p: Rgba| red(p)));
            assert(rect_sum(img, a, b, c, d + 1, |p: Rgba| green(p)) == rect_sum(img, a, b, c, d, |p: Rgba| green(p)) + row_sum(img, d, a, b, |p: Rgba| green(p)));
            assert(rect_sum(img, a, b, c, d + 1, |p: Rgba| blue(p)) == rect_sum(img, a, b, c, d, |p: Rgba| blue(p)) + row_sum(img, d, a, b, |p: Rgba| blue(p)));
            assert(rect_sum(img, a, b, c, d + 1, |p: Rgba| alpha(p)) == rect_sum(img, a, b, c, d, |p: Rgba| alpha(p)) + row_sum(img, d, a, b, |p: Rgba| alpha(p)));
        }
        y = y + 1;
    }
    assert(0 < (y1 - y0) * (x1 - x0)) by (nonlinear_arith)
        requires
            x0 < x1,
            y0 < y1,
    ;
    st
}

} // verus!
