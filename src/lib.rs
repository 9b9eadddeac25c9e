//! Converts a decoded raster image into a grid of glyphs and colors.
//!
//! The image is split into rectangular blocks, one per grid cell; each block
//! is reduced to a mean luminance and a mean color, and the luminance picks a
//! glyph from a gradient of characters ordered from light to dense.

pub mod engine;
pub mod glyph;
pub mod laws;
pub mod pixel;
pub mod sampler;
pub mod settings;

pub use engine::{
    compute_cell, convert, convert_batch, mean_channel, resolve_height, AsciiCharacterDef,
    ConvertRawResult, RawAsciiArtDef,
};
pub use glyph::{glyph_index, map_glyph, pick_glyph, MAX_LUMA_DEN};
pub use pixel::{PixelBuffer, Rgba};
pub use sampler::{block_span, sum_block, BlockSums};
pub use settings::{ConversionError, ConversionSettings};
