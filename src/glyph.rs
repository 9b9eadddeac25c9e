use vstd::prelude::*;
use vstd::arithmetic::div_mod::{
    lemma_fundamental_div_mod, lemma_fundamental_div_mod_converse, lemma_mod_pos_bound,
};

verus! {

/// Index into a gradient of `n` glyphs for the luminance `num / den`
/// (a value in `[0, 255]`): `floor(luminance / 256 * n)`, clamped to `n - 1`.
pub open spec fn glyph_index_spec(num: int, den: int, n: int) -> int {
    let i = num * n / (256 * den);
    if i < n - 1 {
        i
    } else {
        n - 1
    }
}

/// The glyph chosen for luminance `num / den`; with `reverse` the gradient is
/// walked from its last glyph to its first.
pub open spec fn glyph_spec(gradient: Seq<char>, num: int, den: int, reverse: bool) -> char {
    let i = glyph_index_spec(num, den, gradient.len() as int);
    if reverse {
        gradient[gradient.len() - 1 - i]
    } else {
        gradient[i]
    }
}

/// Largest denominator of a luminance that the exact index computation takes.
pub const MAX_LUMA_DEN: u128 = 0x1_0000_0000_0000_0000_0000;

proof fn lemma_index_in_range(num: int, den: int, n: int)
    requires
        0 < den,
        0 <= num <= 255 * den,
        0 < n,
    ensures
        0 <= num * n / (256 * den) < n,
{
    assert(0 <= num * n) by (nonlinear_arith)
        requires
            0 <= num,
            0 < n,
    ;
    assert(num * n < n * (256 * den)) by (nonlinear_arith)
        requires
            0 < den,
            0 <= num <= 255 * den,
            0 < n,
    ;
    let q = num * n / (256 * den);
    assert(q < n) by (nonlinear_arith)
        requires
            q == num * n / (256 * den),
            num * n < n * (256 * den),
            0 <= num * n,
            0 < den,
    ;
    assert(0 <= q) by (nonlinear_arith)
        requires
            q == num * n / (256 * den),
            0 <= num * n,
            0 < den,
    ;
}

/// `floor(num * n / d)` for `num < d`, without leaving 128-bit arithmetic.
fn scaled_floor(num: u128, d: u128, n: u64) -> (r: u64)
    requires
        0 < d <= 256 * MAX_LUMA_DEN,
        num < d,
    ensures
        r as int == num as int * n as int / d as int,
{
    let hi: u128 = (n / 0x1_0000_0000) as u128;
    let lo: u128 = (n % 0x1_0000_0000) as u128;
    assert(hi * num < 0x1_0000_0000 * d) by (nonlinear_arith)
        requires
            hi < 0x1_0000_0000,
            num < d,
    ;
    let prod_hi: u128 = hi * num;
    let qa: u128 = prod_hi / d;
    let ra: u128 = prod_hi % d;
    assert(lo * num < 0x1_0000_0000 * d) by (nonlinear_arith)
        requires
            lo < 0x1_0000_0000,
            num < d,
    ;
    let rest: u128 = ra * 0x1_0000_0000 + lo * num;
    let q2: u128 = rest / d;
    let r2: u128 = rest % d;
    proof {
        let ni = n as int;
        let x = num as int * ni;
        assert(ni == hi * 0x1_0000_0000 + lo);
        lemma_fundamental_div_mod(prod_hi as int, d as int);
        lemma_fundamental_div_mod(rest as int, d as int);
        lemma_mod_pos_bound(rest as int, d as int);
        assert(prod_hi == qa * d + ra);
        assert(rest == q2 * d + r2);
        assert(x == (qa * 0x1_0000_0000 + q2) * d + r2) by (nonlinear_arith)
            requires
                x == num as int * ni,
                ni == hi * 0x1_0000_0000 + lo,
                prod_hi == qa * d + ra,
                prod_hi == hi * num,
                rest == ra * 0x1_0000_0000 + lo * num,
                rest == q2 * d + r2,
        ;
        lemma_fundamental_div_mod_converse(x, d as int, qa * 0x1_0000_0000 + q2, r2 as int);
        assert(x < d * 0x1_0000_0000_0000_0000) by (nonlinear_arith)
            requires
                x == num as int * ni,
                num < d,
                0 <= ni < 0x1_0000_0000_0000_0000,
        ;
        assert(x / d as int <= u64::MAX) by (nonlinear_arith)
            requires
                0 <= x < d * 0x1_0000_0000_0000_0000,
                0 < d,
        ;
        assert(qa < 0x1_0000_0000);
    }
    (qa * 0x1_0000_0000 + q2) as u64
}

/// Gradient index of the luminance `num / den`; see `glyph_index_spec`.
pub fn glyph_index(num: u128, den: u128, n: usize) -> (r: usize)
    requires
        0 < den <= MAX_LUMA_DEN,
        num <= 255 * den,
        0 < n,
    ensures
        r == glyph_index_spec(num as int, den as int, n as int),
        r < n,
{
    let q: u64 = scaled_floor(num, 256 * den, n as u64);
    proof {
        lemma_index_in_range(num as int, den as int, n as int);
    }
    if (q as u128) < (n - 1) as u128 {
        q as usize
    } else {
        n - 1
    }
}

/// Maps a luminance `num / den` in `[0, 255]` to a glyph of `gradient`,
/// walking it backwards when `reverse` is set. `None` for an empty gradient.
pub fn map_glyph(gradient: &Vec<char>, num: u128, den: u128, reverse: bool) -> (r: Option<char>)
    requires
        0 < den <= MAX_LUMA_DEN,
        num <= 255 * den,
    ensures
        r is None <==> gradient@.len() == 0,
        r matches Some(c) ==> c == glyph_spec(gradient@, num as int, den as int, reverse),
{
    if gradient.len() == 0 {
        return None;
    }
    Some(pick_glyph(gradient, num, den, reverse))
}

/// The glyph of a non-empty `gradient` for the luminance `num / den`.
pub fn pick_glyph(gradient: &Vec<char>, num: u128, den: u128, reverse: bool) -> (c: char)
    requires
        0 < den <= MAX_LUMA_DEN,
        num <= 255 * den,
        gradient@.len() > 0,
    ensures
        c == glyph_spec(gradient@, num as int, den as int, reverse),
{
    let n: usize = gradient.len();
    let i: usize = glyph_index(num, den, n);
    if reverse {
        gradient[n - 1 - i]
    } else {
        gradient[i]
    }
}

} // verus!
