use vstd::prelude::*;
use vstd::arithmetic::div_mod::lemma_fundamental_div_mod_converse;
use crate::glyph::{glyph_spec, pick_glyph, MAX_LUMA_DEN};
use crate::pixel::{ImageModel, PixelBuffer, Rgba, lemma_mul_u32_fits};
use crate::sampler::{
    alpha, blue, block_span, derived_height, green, lemma_progress, luma, rect_sum, red,
    round_half_up, span_end, span_start, sum_block,
};
use crate::settings::{ConversionError, ConversionSettings, SettingsModel, settings_error};

verus! {

/// One grid cell: a glyph and the mean color of its block.
#[derive(Clone, Copy, Debug, PartialEq, Eq, Structural)]
pub struct AsciiCharacterDef {
    pub character: char,
    pub r: u8,
    pub g: u8,
    pub b: u8,
    pub a: u8,
}

/// A converted image: `width * height` cells, row by row.
#[derive(Clone, Debug)]
pub struct RawAsciiArtDef {
    pub characters: Vec<AsciiCharacterDef>,
    pub width: u32,
    pub height: u32,
}

/// The grids of one request, in the order the images came.
#[derive(Clone, Debug)]
pub struct ConvertRawResult {
    pub data: Vec<RawAsciiArtDef>,
}

pub ghost struct GridModel {
    pub cells: Seq<AsciiCharacterDef>,
    pub width: nat,
    pub height: nat,
}

impl View for RawAsciiArtDef {
    type V = GridModel;

    open spec fn view(&self) -> GridModel {
        GridModel { cells: self.characters@, width: self.width as nat, height: self.height as nat }
    }
}

pub open spec fn result_view(r: Result<RawAsciiArtDef, ConversionError>) -> Result<
    GridModel,
    ConversionError,
> {
    match r {
        Ok(g) => Ok(g@),
        Err(e) => Err(e),
    }
}

/// Grid rows: the requested height, or the one derived from the image.
pub open spec fn grid_height(img: ImageModel, s: SettingsModel) -> int {
    match s.height {
        Some(h) => h as int,
        None => derived_height(
            s.width as int,
            img.width as int,
            img.height as int,
            s.font_ratio_num,
            s.font_ratio_den as int,
        ),
    }
}

/// The cell in column `c`, row `r` of a `gw` by `gh` grid over `img`.
pub open spec fn cell_spec(img: ImageModel, s: SettingsModel, gw: int, gh: int, c: int, r: int) -> AsciiCharacterDef {
    let x0 = span_start(c, img.width as int, gw);
    let x1 = span_end(c, img.width as int, gw);
    let y0 = span_start(r, img.height as int, gh);
    let y1 = span_end(r, img.height as int, gh);
    let count = (y1 - y0) * (x1 - x0);
    AsciiCharacterDef {
        character: glyph_spec(
            s.gradient,
            rect_sum(img, x0, x1, y0, y1, |p: Rgba| luma(p)),
            1000 * count,
            s.reverse,
        ),
        r: round_half_up(rect_sum(img, x0, x1, y0, y1, |p: Rgba| red(p)), count) as u8,
        g: round_half_up(rect_sum(img, x0, x1, y0, y1, |p: Rgba| green(p)), count) as u8,
        b: round_half_up(rect_sum(img, x0, x1, y0, y1, |p: Rgba| blue(p)), count) as u8,
        a: round_half_up(rect_sum(img, x0, x1, y0, y1, |p: Rgba| alpha(p)), count) as u8,
    }
}

/// The cells of a `gw` by `gh` grid, row by row.
pub open spec fn cells_spec(img: ImageModel, s: SettingsModel, gw: int, gh: int) -> Seq<AsciiCharacterDef> {
    Seq::new((gw * gh) as nat, |i: int| cell_spec(img, s, gw, gh, i % gw, i / gw))
}

/// What converting `img` under `s` gives.
pub open spec fn convert_spec(img: ImageModel, s: SettingsModel) -> Result<GridModel, ConversionError> {
    match settings_error(s) {
        Some(e) => Err(e),
        None => if img.width == 0 || img.height == 0 {
            Err(ConversionError::InvalidDimensions)
        } else if grid_height(img, s) > u32::MAX {
            Err(ConversionError::InvalidDimensions)
        } else {
            let gh = grid_height(img, s);
            Ok(
                GridModel {
                    cells: cells_spec(img, s, s.width as int, gh),
                    width: s.width,
                    height: gh as nat,
                },
            )
        },
    }
}

/// `sum / count` rounded to the nearest integer, for a mean of 8-bit values.
pub fn mean_channel(sum: u128, count: u64) -> (m: u8)
    requires
        0 < count,
        sum <= 255 * count,
    ensures
        m == round_half_up(sum as int, count as int),
{
    assert(round_half_up(sum as int, count as int) <= 255) by (nonlinear_arith)
        requires
            0 < count,
            sum <= 255 * count,
    ;
    assert(0 <= round_half_up(sum as int, count as int)) by (nonlinear_arith)
        requires
            0 < count,
            0 <= sum,
    ;
    ((2 * sum + count as u128) / (2 * count as u128)) as u8
}

/// The grid height for `gw` columns over a `w` by `h` image whose glyphs
/// are `num / den` as wide as tall; `None` when it does not fit in 32 bits.
pub fn resolve_height(gw: u32, w: u32, h: u32, num: i32, den: u32) -> (r: Option<u32>)
    requires
        0 < w,
        0 < num,
        0 < den,
    ensures
        r matches Some(v) ==> v == derived_height(gw as int, w as int, h as int, num as int, den as int),
        r is None <==> derived_height(gw as int, w as int, h as int, num as int, den as int) > u32::MAX,
{
    proof {
        lemma_mul_u32_fits(gw as int, h as int);
        lemma_mul_u32_fits(w as int, den as int);
        assert(gw as int * h as int * num as int <= u64::MAX * i32::MAX) by (nonlinear_arith)
            requires
                0 <= gw as int * h as int <= u64::MAX,
                0 < num <= i32::MAX,
        ;
        assert(0 <= gw as int * h as int * num as int) by (nonlinear_arith)
            requires
                0 <= gw as int * h as int,
                0 < num,
        ;
        assert(0 < w as int * den as int) by (nonlinear_arith)
            requires
                0 < w,
                0 < den,
        ;
    }
    let p: u128 = gw as u128 * h as u128 * num as u128;
    let q: u128 = w as u128 * den as u128;
    let v: u128 = (2 * p + q) / (2 * q);
    if v < 1 {
        Some(1)
    } else if v > u32::MAX as u128 {
        None
    } else {
        Some(v as u32)
    }
}

/// Samples the block of column `c`, row `r` and builds its cell.
pub fn compute_cell(
    buf: &PixelBuffer,
    settings: &ConversionSettings,
    gw: u32,
    gh: u32,
    c: u32,
    r: u32,
) -> (cell: AsciiCharacterDef)
    requires
        c < gw,
        r < gh,
        0 < buf@.width,
        0 < buf@.height,
        settings@.gradient.len() > 0,
    ensures
        cell == cell_spec(buf@, settings@, gw as int, gh as int, c as int, r as int),
{
    let w: u32 = buf.width();
    let h: u32 = buf.height();
    let (x0, x1) = block_span(c, w, gw);
    let (y0, y1) = block_span(r, h, gh);
    let sums = sum_block(buf, x0, x1, y0, y1);
    let den: u128 = 1000 * sums.count as u128;
    assert(den <= MAX_LUMA_DEN);
    let character: char = pick_glyph(&settings.gradient, sums.luma, den, settings.reverse);
    AsciiCharacterDef {
        character,
        r: mean_channel(sums.r, sums.count),
        g: mean_channel(sums.g, sums.count),
        b: mean_channel(sums.b, sums.count),
        a: mean_channel(sums.a, sums.count),
    }
}

proof fn lemma_row_major_split(i: int, gw: int, r: int, c: int)
    requires
        0 <= c < gw,
        0 <= r,
        i == r * gw + c,
    ensures
        i % gw == c,
        i / gw == r,
{
    lemma_fundamental_div_mod_converse(i, gw, r, c);
}

/// Converts one image into a grid of glyphs and colors.
pub fn convert(buf: &PixelBuffer, settings: &ConversionSettings) -> (r: Result<
    RawAsciiArtDef,
    ConversionError,
>)
    ensures
        result_view(r) == convert_spec(buf@, settings@),
{
    match settings.validate() {
        Err(e) => return Err(e),
        Ok(()) => {},
    }
    let w: u32 = buf.width();
    let h: u32 = buf.height();
    if w == 0 || h == 0 {
        return Err(ConversionError::InvalidDimensions);
    }
    let gw: u32 = settings.width;
    let gh: u32 = match settings.height {
        Some(v) => v,
        None => match resolve_height(gw, w, h, settings.font_ratio_num, settings.font_ratio_den) {
            Some(v) => v,
            None => return Err(ConversionError::InvalidDimensions),
        },
    };
    let ghost img = buf@;
    let ghost s = settings@;
    assert(gh == grid_height(img, s));
    let mut cells: Vec<AsciiCharacterDef> = Vec::new();
    let mut row: u32 = 0;
    while row < gh
        invariant
            img == buf@,
            s == settings@,
            0 < w && w == img.width,
            0 < h && h == img.height,
            gw == s.width,
            0 < gw,
            s.gradient.len() > 0,
            row <= gh,
            cells@.len() == row * gw,
            forall|i: int|
                0 <= i < cells@.len() ==> #[trigger] cells@[i] == cell_spec(
                    img,
                    s,
                    gw as int,
                    gh as int,
                    i % (gw as int),
                    i / (gw as int),
                ),
        decreases gh - row,
    {
        let mut col: u32 = 0;
        while col < gw
            invariant
                img == buf@,
                s == settings@,
                0 < w && w == img.width,
                0 < h && h == img.height,
                gw == s.width,
                0 < gw,
                s.gradient.len() > 0,
                row < gh,
                col <= gw,
                cells@.len() == row * gw + col,
                forall|i: int|
                    0 <= i < cells@.len() ==> #[trigger] cells@[i] == cell_spec(
                        img,
                        s,
                        gw as int,
                        gh as int,
                        i % (gw as int),
                        i / (gw as int),
                    ),
            decreases gw - col,
        {
            let cell = compute_cell(buf, settings, gw, gh, col, row);
            proof {
                lemma_row_major_split(row * gw + col, gw as int, row as int, col as int);
            }
            cells.push(cell);
            col = col + 1;
        }
        proof {
            lemma_progress(row as int, gw as int, 0, gh as int);
        }
        row = row + 1;
    }
    assert(row * gw == gw * gh) by (nonlinear_arith)
        requires
            row == gh,
    ;
    assert(cells@ =~= cells_spec(img, s, gw as int, gh as int));
    Ok(RawAsciiArtDef { characters: cells, width: gw, height: gh })
}

/// What the batch holds at one position: the grid of a decoded image, or the
/// decoder's failure passed on.
pub open spec fn batch_item_spec(item: Result<PixelBuffer, String>, s: SettingsModel) -> Result<
    GridModel,
    ConversionError,
> {
    match item {
        Ok(b) => convert_spec(b@, s),
        Err(m) => Err(ConversionError::DecodeFailure(m)),
    }
}

/// Converts every image of a request under one set of settings. Each
/// position of the result belongs to the same position of `images`; a
/// failure at one position leaves the others untouched.
pub fn convert_batch(images: &Vec<Result<PixelBuffer, String>>, settings: &ConversionSettings) -> (out: Vec<
    Result<RawAsciiArtDef, ConversionError>,
>)
    ensures
        out@.len() == images@.len(),
        forall|i: int|
            0 <= i < images@.len() ==> result_view(#[trigger] out@[i]) == batch_item_spec(
                images@[i],
                settings@,
            ),
{
    let mut out: Vec<Result<RawAsciiArtDef, ConversionError>> = Vec::new();
    let mut k: usize = 0;
    while k < images.len()
        invariant
            k <= images@.len(),
            out@.len() == k,
            forall|i: int|
                0 <= i < k ==> result_view(#[trigger] out@[i]) == batch_item_spec(
                    images@[i],
                    settings@,
                ),
        decreases images@.len() - k,
    {
        let item = match &images[k] {
            Ok(b) => convert(b, settings),
            Err(m) => Err(ConversionError::DecodeFailure(m.clone())),
        };
        out.push(item);
        k = k + 1;
    }
    out
}

} // verus!
