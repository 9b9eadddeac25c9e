use ascii_grid::{
    block_span, convert, convert_batch, glyph_index, map_glyph, mean_channel, resolve_height,
    AsciiCharacterDef, ConversionError, ConversionSettings, PixelBuffer, RawAsciiArtDef, Rgba,
};

fn px(r: u8, g: u8, b: u8, a: u8) -> Rgba {
    Rgba { r, g, b, a }
}

fn solid(width: u32, height: u32, p: Rgba) -> PixelBuffer {
    PixelBuffer::new(width, height, vec![p; (width * height) as usize]).unwrap()
}

fn gradient(s: &str) -> Vec<char> {
    s.chars().collect()
}

fn settings(width: u32, height: Option<u32>, grad: &str) -> ConversionSettings {
    ConversionSettings {
        width,
        height,
        gradient: gradient(grad),
        font_ratio_num: 1,
        font_ratio_den: 2,
        reverse: false,
    }
}

/// A 6 by 4 image whose pixels all differ.
fn ramp() -> PixelBuffer {
    let mut pixels = Vec::new();
    for y in 0..4u32 {
        for x in 0..6u32 {
            pixels.push(px((x * 40) as u8, (y * 60) as u8, (x * y * 10) as u8, 255));
        }
    }
    PixelBuffer::new(6, 4, pixels).unwrap()
}

fn glyphs(g: &RawAsciiArtDef) -> Vec<char> {
    g.characters.iter().map(|c| c.character).collect()
}

#[test]
fn pixel_buffer_rejects_wrong_length() {
    assert!(PixelBuffer::new(2, 2, vec![px(0, 0, 0, 0); 3]).is_none());
    let b = PixelBuffer::new(2, 1, vec![px(1, 2, 3, 4), px(5, 6, 7, 8)]).unwrap();
    assert_eq!(b.pixel(1, 0), px(5, 6, 7, 8));
    assert_eq!(b.width(), 2);
    assert_eq!(b.height(), 1);
}

#[test]
fn derived_height_rounds_half_up() {
    assert_eq!(resolve_height(50, 200, 100, 1, 2), Some(13));
    let img = solid(200, 100, px(0, 0, 0, 255));
    let g = convert(&img, &settings(50, None, " .:#")).unwrap();
    assert_eq!(g.width, 50);
    assert_eq!(g.height, 13);
    assert_eq!(g.characters.len(), 650);
}

#[test]
fn derived_height_is_at_least_one() {
    assert_eq!(resolve_height(1, 1000, 1, 1, 2), Some(1));
}

#[test]
fn derived_height_too_large_is_rejected() {
    assert_eq!(resolve_height(u32::MAX, 1, u32::MAX, 1, 1), None);
    let img = solid(1, 10, px(0, 0, 0, 255));
    let mut s = settings(u32::MAX, None, "ab");
    s.font_ratio_num = i32::MAX;
    s.font_ratio_den = 1;
    assert!(matches!(convert(&img, &s), Err(ConversionError::InvalidDimensions)));
}

#[test]
fn empty_gradient_is_rejected_first() {
    let img = solid(4, 4, px(9, 9, 9, 9));
    let mut s = settings(2, Some(2), "");
    assert!(matches!(convert(&img, &s), Err(ConversionError::EmptyGradient)));
    s.font_ratio_num = 0;
    s.width = 0;
    assert!(matches!(convert(&img, &s), Err(ConversionError::EmptyGradient)));
    assert!(matches!(s.validate(), Err(ConversionError::EmptyGradient)));
}

#[test]
fn non_positive_font_ratio_is_rejected() {
    let img = solid(4, 4, px(9, 9, 9, 9));
    let mut s = settings(2, None, "ab");
    s.font_ratio_num = 0;
    assert!(matches!(convert(&img, &s), Err(ConversionError::InvalidSettings)));
    s.font_ratio_num = -1;
    assert!(matches!(convert(&img, &s), Err(ConversionError::InvalidSettings)));
    s.font_ratio_num = 1;
    s.font_ratio_den = 0;
    assert!(matches!(convert(&img, &s), Err(ConversionError::InvalidSettings)));
}

#[test]
fn zero_grid_dimensions_are_rejected() {
    let img = solid(4, 4, px(9, 9, 9, 9));
    assert!(matches!(convert(&img, &settings(0, None, "ab")), Err(ConversionError::InvalidSettings)));
    assert!(matches!(
        convert(&img, &settings(2, Some(0), "ab")),
        Err(ConversionError::InvalidSettings)
    ));
    assert!(settings(2, Some(3), "ab").validate().is_ok());
}

#[test]
fn empty_image_is_rejected() {
    let img = PixelBuffer::new(0, 5, vec![]).unwrap();
    assert!(matches!(convert(&img, &settings(2, None, "ab")), Err(ConversionError::InvalidDimensions)));
    let img = PixelBuffer::new(5, 0, vec![]).unwrap();
    assert!(matches!(
        convert(&img, &settings(2, Some(2), "ab")),
        Err(ConversionError::InvalidDimensions)
    ));
}

#[test]
fn conversion_is_deterministic() {
    let img = ramp();
    let s = settings(4, Some(3), " .:-=+*#%@");
    let a = convert(&img, &s).unwrap();
    let b = convert(&img, &s).unwrap();
    assert_eq!(a.characters, b.characters);
    assert_eq!((a.width, a.height), (b.width, b.height));
}

#[test]
fn cell_count_is_width_times_height() {
    let img = ramp();
    for (w, h) in [(1u32, 1u32), (3, 2), (6, 4), (10, 7)] {
        let g = convert(&img, &settings(w, Some(h), "ab")).unwrap();
        assert_eq!(g.characters.len(), (g.width * g.height) as usize);
        assert_eq!((g.width, g.height), (w, h));
    }
}

#[test]
fn spans_tile_evenly() {
    assert_eq!(block_span(0, 7, 3), (0, 2));
    assert_eq!(block_span(1, 7, 3), (2, 4));
    assert_eq!(block_span(2, 7, 3), (4, 7));
    for parts in 1..=9u32 {
        let mut next = 0;
        for i in 0..parts {
            let (s, e) = block_span(i, 9, parts);
            assert_eq!(s, next);
            assert!(e > s);
            next = e;
        }
        assert_eq!(next, 9);
    }
}

#[test]
fn empty_spans_become_single_pixels() {
    assert_eq!(block_span(0, 2, 4), (0, 1));
    assert_eq!(block_span(1, 2, 4), (0, 1));
    assert_eq!(block_span(2, 2, 4), (1, 2));
    assert_eq!(block_span(3, 2, 4), (1, 2));
}

#[test]
fn uniform_image_gives_uniform_grid() {
    let p = px(10, 20, 30, 40);
    let img = solid(7, 5, p);
    let g = convert(&img, &settings(3, Some(4), " .:-=+*#%@")).unwrap();
    // luminance 0.299*10 + 0.587*20 + 0.114*30 = 18.15 -> floor(18.15 / 256 * 10) = 0
    let expected = AsciiCharacterDef { character: ' ', r: 10, g: 20, b: 30, a: 40 };
    assert!(g.characters.iter().all(|c| *c == expected));
    let white = solid(4, 4, px(255, 255, 255, 255));
    let g = convert(&white, &settings(2, Some(2), "ab")).unwrap();
    assert!(g.characters.iter().all(|c| c.character == 'b'));
}

#[test]
fn reverse_matches_reversed_gradient() {
    let img = ramp();
    let mut fwd = settings(3, Some(2), " .:#@");
    fwd.reverse = true;
    let rev = settings(3, Some(2), "@#:. ");
    let a = convert(&img, &fwd).unwrap();
    let b = convert(&img, &rev).unwrap();
    assert_eq!(a.characters, b.characters);
    let plain = convert(&img, &settings(3, Some(2), " .:#@")).unwrap();
    assert_ne!(glyphs(&plain), glyphs(&a));
}

#[test]
fn block_means_round_half_up() {
    let img = PixelBuffer::new(2, 1, vec![px(0, 0, 0, 255), px(255, 255, 255, 254)]).unwrap();
    let g = convert(&img, &settings(1, Some(1), "ab")).unwrap();
    // luminance 127.5 -> floor(127.5 / 256 * 2) = 0
    assert_eq!(g.characters, vec![AsciiCharacterDef { character: 'a', r: 128, g: 128, b: 128, a: 255 }]);
}

#[test]
fn red_pixel_luminance_picks_third_glyph() {
    // 0.299 * 255 = 76.245 -> floor(76.245 / 256 * 10) = 2
    let img = solid(1, 1, px(255, 0, 0, 255));
    let g = convert(&img, &settings(1, Some(1), "0123456789")).unwrap();
    assert_eq!(g.characters[0].character, '2');
}

#[test]
fn cells_follow_row_major_order() {
    let img = PixelBuffer::new(
        2,
        2,
        vec![px(0, 0, 0, 1), px(255, 255, 255, 2), px(255, 255, 255, 3), px(0, 0, 0, 4)],
    )
    .unwrap();
    let g = convert(&img, &settings(2, Some(2), "ab")).unwrap();
    assert_eq!(glyphs(&g), vec!['a', 'b', 'b', 'a']);
    let alphas: Vec<u8> = g.characters.iter().map(|c| c.a).collect();
    assert_eq!(alphas, vec![1, 2, 3, 4]);
}

#[test]
fn batch_keeps_submission_order() {
    let a = solid(2, 2, px(0, 0, 0, 255));
    let b = solid(2, 2, px(255, 255, 255, 255));
    let images = vec![Ok(a), Ok(b), Err(String::from("unknown format"))];
    let out = convert_batch(&images, &settings(1, Some(1), "ab"));
    assert_eq!(out.len(), 3);
    assert_eq!(out[0].as_ref().unwrap().characters[0].character, 'a');
    assert_eq!(out[1].as_ref().unwrap().characters[0].character, 'b');
    match &out[2] {
        Err(ConversionError::DecodeFailure(m)) => assert_eq!(m, "unknown format"),
        _ => panic!("expected a decode failure"),
    }
}

#[test]
fn batch_failure_does_not_block_others() {
    let a = solid(3, 3, px(10, 10, 10, 10));
    let bad_settings = settings(0, None, "ab");
    let out = convert_batch(&vec![Ok(a)], &bad_settings);
    assert!(matches!(out[0], Err(ConversionError::InvalidSettings)));
    let empty: Vec<Result<PixelBuffer, String>> = vec![];
    assert!(convert_batch(&empty, &settings(1, None, "ab")).is_empty());
}

#[test]
fn glyph_index_is_exact() {
    assert_eq!(glyph_index(255, 1, 10), 9);
    assert_eq!(glyph_index(128, 1, 4), 2);
    assert_eq!(glyph_index(0, 1, 4), 0);
    assert_eq!(glyph_index(1, 1, 1usize << 40), 1usize << 32);
    assert_eq!(glyph_index(255, 1, 1), 0);
}

#[test]
fn map_glyph_handles_empty_and_reverse() {
    assert_eq!(map_glyph(&vec![], 10, 1, false), None);
    let g = gradient("abcd");
    assert_eq!(map_glyph(&g, 0, 1, false), Some('a'));
    assert_eq!(map_glyph(&g, 0, 1, true), Some('d'));
    assert_eq!(map_glyph(&g, 255, 1, false), Some('d'));
}

#[test]
fn mean_channel_rounds() {
    assert_eq!(mean_channel(5, 2), 3);
    assert_eq!(mean_channel(4, 3), 1);
    assert_eq!(mean_channel(255 * 7, 7), 255);
    assert_eq!(mean_channel(0, 9), 0);
}
