use vstd::prelude::*;
use vstd::arithmetic::div_mod::lemma_fundamental_div_mod_converse;
use crate::engine::{cell_spec, cells_spec, convert_spec, grid_height, AsciiCharacterDef};
use crate::glyph::{glyph_index_spec, glyph_spec};
use crate::pixel::{ImageModel, Rgba};
use crate::sampler::{
    alpha, blue, green, lemma_span_bounds, luma, luma_of, rect_sum, red, round_half_up, row_sum,
    span_end, span_start,
};
use crate::settings::{settings_error, SettingsModel};

verus! {

/// Converting the same image with the same settings twice gives identical
/// results.
pub proof fn law_conversion_is_deterministic(
    img1: ImageModel,
    img2: ImageModel,
    s1: SettingsModel,
    s2: SettingsModel,
)
    requires
        img1 == img2,
        s1 == s2,
    ensures
        convert_spec(img1, s1) == convert_spec(img2, s2),
{
}

/// A successful conversion holds exactly `width * height` cells.
pub proof fn law_cell_count(img: ImageModel, s: SettingsModel)
    ensures
        convert_spec(img, s) matches Ok(g) ==> g.cells.len() == g.width * g.height,
{
    if let Ok(g) = convert_spec(img, s) {
        let gw = g.width as int;
        let gh = g.height as int;
        assert(gw * gh >= 0) by (nonlinear_arith)
            requires
                gw >= 0,
                gh >= 0,
        ;
    }
}

proof fn lemma_find_span(total: int, parts: int, x: int, i: int)
    requires
        1 <= parts,
        1 <= total,
        0 <= x < total,
        0 <= i < parts,
        span_start(i, total, parts) <= x,
    ensures
        exists|j: int|
            0 <= j < parts && span_start(j, total, parts) <= x < #[trigger] span_end(j, total, parts),
    decreases parts - i,
{
    if x < (i + 1) * total / parts {
        assert(span_start(i, total, parts) <= x < span_end(i, total, parts));
    } else {
        if i + 1 == parts {
            assert((i + 1) * total / parts == total) by (nonlinear_arith)
                requires
                    i + 1 == parts,
                    1 <= parts,
            ;
        }
        lemma_find_span(total, parts, x, i + 1);
    }
}

/// Every index in `[0, total)` lies in the span of some part.
pub proof fn law_spans_cover(total: int, parts: int, x: int)
    requires
        1 <= parts,
        1 <= total,
        0 <= x < total,
    ensures
        exists|j: int|
            0 <= j < parts && span_start(j, total, parts) <= x < #[trigger] span_end(j, total, parts),
{
    lemma_find_span(total, parts, x, 0);
}

proof fn lemma_span_ends_before(total: int, parts: int, i: int, j: int)
    requires
        1 <= parts <= total,
        0 <= i < j < parts,
    ensures
        span_end(i, total, parts) == (i + 1) * total / parts,
        span_end(i, total, parts) <= span_start(j, total, parts),
{
    assert((i + 1) * total / parts >= i * total / parts + 1) by (nonlinear_arith)
        requires
            1 <= parts <= total,
            0 <= i,
    ;
    assert((i + 1) * total / parts <= j * total / parts) by (nonlinear_arith)
        requires
            1 <= parts,
            0 <= i < j,
            1 <= total,
    ;
}

/// When there are no more parts than items, no index lies in two spans.
pub proof fn law_spans_disjoint(total: int, parts: int, i: int, j: int, x: int)
    requires
        1 <= parts <= total,
        0 <= i < parts,
        0 <= j < parts,
        span_start(i, total, parts) <= x < span_end(i, total, parts),
        span_start(j, total, parts) <= x < span_end(j, total, parts),
    ensures
        i == j,
{
    if i < j {
        lemma_span_ends_before(total, parts, i, j);
    } else if j < i {
        lemma_span_ends_before(total, parts, j, i);
    }
}

/// The blocks of a `gw` by `gh` grid over a `w` by `h` image lie inside it
/// and cover every pixel; when the grid is no finer than the image along
/// either axis, each pixel lies in exactly one block.
pub proof fn law_blocks_tile(w: int, h: int, gw: int, gh: int, x: int, y: int)
    requires
        1 <= w,
        1 <= h,
        1 <= gw,
        1 <= gh,
        0 <= x < w,
        0 <= y < h,
    ensures
        forall|c: int|
            0 <= c < gw ==> 0 <= #[trigger] span_start(c, w, gw) < span_end(c, w, gw) <= w,
        forall|r: int|
            0 <= r < gh ==> 0 <= #[trigger] span_start(r, h, gh) < span_end(r, h, gh) <= h,
        exists|c: int, r: int|
            0 <= c < gw && 0 <= r < gh && span_start(c, w, gw) <= x < #[trigger] span_end(c, w, gw)
                && span_start(r, h, gh) <= y < #[trigger] span_end(r, h, gh),
        gw <= w && gh <= h ==> forall|c1: int, r1: int, c2: int, r2: int|
            0 <= c1 < gw && 0 <= r1 < gh && 0 <= c2 < gw && 0 <= r2 < gh
                && span_start(c1, w, gw) <= x < #[trigger] span_end(c1, w, gw)
                && span_start(r1, h, gh) <= y < #[trigger] span_end(r1, h, gh)
                && span_start(c2, w, gw) <= x < #[trigger] span_end(c2, w, gw)
                && span_start(r2, h, gh) <= y < #[trigger] span_end(r2, h, gh) ==> c1 == c2 && r1 == r2,
{
    assert forall|c: int| 0 <= c < gw implies 0 <= #[trigger] span_start(c, w, gw) < span_end(c, w, gw) <= w by {
        lemma_span_bounds(c, w, gw);
    }
    assert forall|r: int| 0 <= r < gh implies 0 <= #[trigger] span_start(r, h, gh) < span_end(r, h, gh) <= h by {
        lemma_span_bounds(r, h, gh);
    }
    law_spans_cover(w, gw, x);
    law_spans_cover(h, gh, y);
    let c = choose|c: int| 0 <= c < gw && span_start(c, w, gw) <= x < #[trigger] span_end(c, w, gw);
    let r = choose|r: int| 0 <= r < gh && span_start(r, h, gh) <= y < #[trigger] span_end(r, h, gh);
    assert(0 <= c < gw && 0 <= r < gh && span_start(c, w, gw) <= x < span_end(c, w, gw)
        && span_start(r, h, gh) <= y < span_end(r, h, gh));
    if gw <= w && gh <= h {
        assert forall|c1: int, r1: int, c2: int, r2: int|
            0 <= c1 < gw && 0 <= r1 < gh && 0 <= c2 < gw && 0 <= r2 < gh
                && span_start(c1, w, gw) <= x < #[trigger] span_end(c1, w, gw)
                && span_start(r1, h, gh) <= y < #[trigger] span_end(r1, h, gh)
                && span_start(c2, w, gw) <= x < #[trigger] span_end(c2, w, gw)
                && span_start(r2, h, gh) <= y < #[trigger] span_end(r2, h, gh) implies c1 == c2 && r1 == r2 by {
            law_spans_disjoint(w, gw, c1, c2, x);
            law_spans_disjoint(h, gh, r1, r2, y);
        }
    }
}

proof fn lemma_row_uniform(img: ImageModel, y: int, x0: int, x1: int, f: spec_fn(Rgba) -> int, p: Rgba)
    requires
        x0 <= x1,
        forall|x: int| x0 <= x < x1 ==> img.at(x, y) == p,
    ensures
        row_sum(img, y, x0, x1, f) == (x1 - x0) * f(p),
    decreases x1 - x0,
{
    if x1 > x0 {
        lemma_row_uniform(img, y, x0, x1 - 1, f, p);
        assert(img.at(x1 - 1, y) == p);
        assert((x1 - 1 - x0) * f(p) + f(p) == (x1 - x0) * f(p)) by (nonlinear_arith);
    } else {
        assert((x1 - x0) * f(p) == 0) by (nonlinear_arith)
            requires
                x1 == x0,
        ;
    }
}

proof fn lemma_rect_uniform(
    img: ImageModel,
    x0: int,
    x1: int,
    y0: int,
    y1: int,
    f: spec_fn(Rgba) -> int,
    p: Rgba,
)
    requires
        x0 <= x1,
        y0 <= y1,
        forall|x: int, y: int| x0 <= x < x1 && y0 <= y < y1 ==> img.at(x, y) == p,
    ensures
        rect_sum(img, x0, x1, y0, y1, f) == ((y1 - y0) * (x1 - x0)) * f(p),
    decreases y1 - y0,
{
    if y1 > y0 {
        lemma_rect_uniform(img, x0, x1, y0, y1 - 1, f, p);
        lemma_row_uniform(img, y1 - 1, x0, x1, f, p);
        let v = f(p);
        assert(((y1 - 1 - y0) * (x1 - x0)) * v + (x1 - x0) * v == ((y1 - y0) * (x1 - x0)) * v)
            by (nonlinear_arith);
    } else {
        assert(((y1 - y0) * (x1 - x0)) * f(p) == 0) by (nonlinear_arith)
            requires
                y1 == y0,
        ;
    }
}

proof fn lemma_mean_of_equal(count: int, v: int)
    requires
        0 < count,
        0 <= v,
    ensures
        round_half_up(count * v, count) == v,
{
    assert(2 * (count * v) + count == v * (2 * count) + count) by (nonlinear_arith);
    lemma_fundamental_div_mod_converse(2 * (count * v) + count, 2 * count, v, count);
}

proof fn lemma_index_scales(num: int, den: int, count: int, n: int)
    requires
        0 < count,
        0 < den,
        0 <= num,
        0 <= n,
    ensures
        glyph_index_spec(count * num, count * den, n) == glyph_index_spec(num, den, n),
{
    let d = 256 * den;
    let q = num * n / d;
    let r = num * n % d;
    assert(num * n == q * d + r && 0 <= r < d) by (nonlinear_arith)
        requires
            q == num * n / d,
            r == num * n % d,
            0 < d,
    ;
    assert(count * num * n == q * (256 * (count * den)) + count * r && 0 <= count * r < 256 * (count
        * den)) by (nonlinear_arith)
        requires
            num * n == q * d + r,
            d == 256 * den,
            0 <= r < d,
            0 < count,
    ;
    lemma_fundamental_div_mod_converse(count * num * n, 256 * (count * den), q, count * r);
}

proof fn lemma_cell_position(i: int, gw: int, gh: int)
    requires
        0 < gw,
        0 <= i < gw * gh,
    ensures
        0 <= i % gw < gw,
        0 <= i / gw < gh,
{
    assert(0 <= i % gw < gw && 0 <= i / gw < gh) by (nonlinear_arith)
        requires
            0 < gw,
            0 <= i < gw * gh,
    ;
}

/// An image of one color converts to cells that all carry that color and
/// the one glyph of its luminance.
pub proof fn law_uniform_image(img: ImageModel, s: SettingsModel, p: Rgba)
    requires
        forall|x: int, y: int| 0 <= x < img.width && 0 <= y < img.height ==> img.at(x, y) == p,
    ensures
        convert_spec(img, s) matches Ok(g) ==> forall|i: int|
            0 <= i < g.cells.len() ==> #[trigger] g.cells[i] == (AsciiCharacterDef {
                character: glyph_spec(s.gradient, luma_of(p), 1000, s.reverse),
                r: p.r,
                g: p.g,
                b: p.b,
                a: p.a,
            }),
{
    if let Ok(g) = convert_spec(img, s) {
        let gw = s.width as int;
        let gh = grid_height(img, s);
        let w = img.width as int;
        let h = img.height as int;
        assert forall|i: int| 0 <= i < g.cells.len() implies #[trigger] g.cells[i] == (
        AsciiCharacterDef {
            character: glyph_spec(s.gradient, luma_of(p), 1000, s.reverse),
            r: p.r,
            g: p.g,
            b: p.b,
            a: p.a,
        }) by {
            lemma_cell_position(i, gw, gh);
            let c = i % gw;
            let r = i / gw;
            lemma_span_bounds(c, w, gw);
            lemma_span_bounds(r, h, gh);
            let x0 = span_start(c, w, gw);
            let x1 = span_end(c, w, gw);
            let y0 = span_start(r, h, gh);
            let y1 = span_end(r, h, gh);
            let count = (y1 - y0) * (x1 - x0);
            assert(0 < count) by (nonlinear_arith)
                requires
                    x0 < x1,
                    y0 < y1,
                    count == (y1 - y0) * (x1 - x0),
            ;
            lemma_rect_uniform(img, x0, x1, y0, y1, |q: Rgba| luma(q), p);
            lemma_rect_uniform(img, x0, x1, y0, y1, |q: Rgba| red(q), p);
            lemma_rect_uniform(img, x0, x1, y0, y1, |q: Rgba| green(q), p);
            lemma_rect_uniform(img, x0, x1, y0, y1, |q: Rgba| blue(q), p);
            lemma_rect_uniform(img, x0, x1, y0, y1, |q: Rgba| alpha(q), p);
            lemma_mean_of_equal(count, p.r as int);
            lemma_mean_of_equal(count, p.g as int);
            lemma_mean_of_equal(count, p.b as int);
            lemma_mean_of_equal(count, p.a as int);
            lemma_index_scales(luma_of(p), 1000, count, s.gradient.len() as int);
            assert(g.cells[i] == cell_spec(img, s, gw, gh, c, r));
        }
    }
}

proof fn lemma_row_nonneg(img: ImageModel, y: int, x0: int, x1: int, f: spec_fn(Rgba) -> int)
    requires
        forall|q: Rgba| #[trigger] f(q) >= 0,
    ensures
        row_sum(img, y, x0, x1, f) >= 0,
    decreases x1 - x0,
{
    if x1 > x0 {
        lemma_row_nonneg(img, y, x0, x1 - 1, f);
        assert(f(img.at(x1 - 1, y)) >= 0);
    }
}

proof fn lemma_rect_nonneg(img: ImageModel, x0: int, x1: int, y0: int, y1: int, f: spec_fn(Rgba) -> int)
    requires
        forall|q: Rgba| #[trigger] f(q) >= 0,
    ensures
        rect_sum(img, x0, x1, y0, y1, f) >= 0,
    decreases y1 - y0,
{
    if y1 > y0 {
        lemma_rect_nonneg(img, x0, x1, y0, y1 - 1, f);
        lemma_row_nonneg(img, y1 - 1, x0, x1, f);
    }
}

/// Walking a gradient backwards picks the glyph that the reversed gradient
/// picks walked forwards.
pub proof fn law_glyph_reverse(gradient: Seq<char>, num: int, den: int)
    requires
        gradient.len() > 0,
        0 <= num,
        0 < den,
    ensures
        glyph_spec(gradient, num, den, true) == glyph_spec(gradient.reverse(), num, den, false),
{
    let n = gradient.len() as int;
    assert(0 <= num * n / (256 * den)) by (nonlinear_arith)
        requires
            0 <= num,
            0 < n,
            0 < den,
    ;
    let i = glyph_index_spec(num, den, n);
    assert(0 <= i < n);
    assert(gradient.reverse()[i] == gradient[n - 1 - i]);
}

/// Converting with `reverse` set gives exactly what converting with the
/// gradient reversed by hand, and `reverse` unset, gives.
pub proof fn law_reverse_is_reversed_gradient(img: ImageModel, s: SettingsModel)
    ensures
        convert_spec(img, SettingsModel { reverse: true, ..s }) == convert_spec(
            img,
            SettingsModel { gradient: s.gradient.reverse(), reverse: false, ..s },
        ),
{
    let s1 = SettingsModel { reverse: true, ..s };
    let s2 = SettingsModel { gradient: s.gradient.reverse(), reverse: false, ..s };
    assert(s2.gradient.len() == s1.gradient.len());
    assert(settings_error(s1) == settings_error(s2));
    if settings_error(s1) is None && img.width > 0 && img.height > 0 && grid_height(img, s1)
        <= u32::MAX {
        let gw = s.width as int;
        let gh = grid_height(img, s1);
        let w = img.width as int;
        let h = img.height as int;
        assert forall|i: int| 0 <= i < gw * gh implies #[trigger] cells_spec(img, s1, gw, gh)[i]
            == cells_spec(img, s2, gw, gh)[i] by {
            lemma_cell_position(i, gw, gh);
            let c = i % gw;
            let r = i / gw;
            lemma_span_bounds(c, w, gw);
            lemma_span_bounds(r, h, gh);
            let x0 = span_start(c, w, gw);
            let x1 = span_end(c, w, gw);
            let y0 = span_start(r, h, gh);
            let y1 = span_end(r, h, gh);
            let count = (y1 - y0) * (x1 - x0);
            assert(0 < count) by (nonlinear_arith)
                requires
                    x0 < x1,
                    y0 < y1,
                    count == (y1 - y0) * (x1 - x0),
            ;
            lemma_rect_nonneg(img, x0, x1, y0, y1, |q: Rgba| luma(q));
            law_glyph_reverse(
                s.gradient,
                rect_sum(img, x0, x1, y0, y1, |q: Rgba| luma(q)),
                1000 * count,
            );
        }
        assert(cells_spec(img, s1, gw, gh) =~= cells_spec(img, s2, gw, gh));
    }
}

} // verus!
