use milk_filter::{
    apply_milk_filter, apply_random_filters, draw_color, fit_dimensions, generate_palette,
    palette_from_colors, quantize, stretch_by_luminance, FilterError, Image, LinearTable,
    Palette, PaletteEntry, Pixel, LUMA_MAX,
};
use palette::{LinSrgb, Srgb};
use rand::rngs::StdRng;
use rand::SeedableRng;

fn srgb_table() -> LinearTable {
    let mut values = Vec::new();
    for c in 0..=255u32 {
        let lin: LinSrgb<f32> = Srgb::new(c as f32 / 255.0, 0.0, 0.0).into_linear();
        values.push((lin.red as f64 * 1_000_000.0).round() as u32);
    }
    LinearTable::new(values).expect("sRGB decoding is a valid table")
}

fn px(r: u8, g: u8, b: u8) -> Pixel {
    Pixel::new(r, g, b)
}

fn image(width: usize, height: usize, pixels: Vec<Pixel>) -> Image {
    Image::new(width, height, pixels).expect("pixel count matches")
}

fn entry(r: u8, g: u8, b: u8, luma: u64) -> PaletteEntry {
    PaletteEntry { color: px(r, g, b), luma }
}

#[test]
fn table_rejects_invalid_decodings() {
    assert!(LinearTable::new(vec![0; 255]).is_none());
    let mut v: Vec<u32> = (0..256u32).map(|c| c * 1_000_000 / 255).collect();
    assert!(LinearTable::new(v.clone()).is_some());
    v[10] = v[9] - 1;
    assert!(LinearTable::new(v.clone()).is_none());
    let mut above: Vec<u32> = (0..256u32).map(|c| c * 1_000_000 / 255).collect();
    above[100] += 10;
    assert!(LinearTable::new(above).is_none());
    let mut top: Vec<u32> = (0..256u32).map(|c| c * 1_000_000 / 255).collect();
    top[255] = 999_999;
    assert!(LinearTable::new(top).is_none());
}

#[test]
fn luminance_of_black_white_and_primaries() {
    let t = srgb_table();
    assert_eq!(t.relative_luminance(px(0, 0, 0)), 0);
    assert_eq!(t.relative_luminance(px(255, 255, 255)), LUMA_MAX);
    assert_eq!(t.relative_luminance(px(255, 0, 0)), 2126 * 1_000_000);
    assert_eq!(t.relative_luminance(px(0, 255, 0)), 7152 * 1_000_000);
    assert_eq!(t.relative_luminance(px(0, 0, 255)), 722 * 1_000_000);
}

#[test]
fn luminance_grows_with_each_channel() {
    let t = srgb_table();
    let base = px(40, 90, 160);
    let l = t.relative_luminance(base);
    assert!(t.relative_luminance(px(41, 90, 160)) >= l);
    assert!(t.relative_luminance(px(40, 200, 160)) > l);
    assert!(t.relative_luminance(px(40, 90, 255)) > l);
    assert!(t.relative_luminance(px(0, 90, 160)) < l);
}

#[test]
fn stretch_keeps_black_and_white_pair() {
    let t = srgb_table();
    let img = image(2, 1, vec![px(0, 0, 0), px(255, 255, 255)]);
    let out = stretch_by_luminance(&img, &t).unwrap();
    assert_eq!(out.width(), 2);
    assert_eq!(out.height(), 1);
    assert_eq!(out.pixels().clone(), vec![px(0, 0, 0), px(255, 255, 255)]);
}

#[test]
fn stretch_leaves_full_range_image_unchanged() {
    let t = srgb_table();
    let pixels = vec![px(0, 0, 0), px(255, 255, 255), px(128, 128, 128), px(255, 0, 0), px(128, 0, 0)];
    let img = image(5, 1, pixels.clone());
    let out = stretch_by_luminance(&img, &t).unwrap();
    assert_eq!(out.pixels().clone(), pixels);
}

#[test]
fn stretch_spreads_narrow_range() {
    let t = srgb_table();
    let img = image(1, 2, vec![px(64, 64, 64), px(128, 128, 128)]);
    let out = stretch_by_luminance(&img, &t).unwrap();
    assert_eq!(out.get(0, 0), px(0, 0, 0));
    assert_eq!(out.get(0, 1), px(255, 255, 255));
    assert_eq!(t.relative_luminance(out.get(0, 0)), 0);
    assert_eq!(t.relative_luminance(out.get(0, 1)), LUMA_MAX);
}

#[test]
fn stretch_colored_brightest_pixel_does_not_reach_full() {
    let t = srgb_table();
    let img = image(2, 1, vec![px(0, 0, 0), px(255, 0, 0)]);
    let out = stretch_by_luminance(&img, &t).unwrap();
    assert_eq!(out.get(1, 0), px(255, 0, 0));
    assert!(t.relative_luminance(out.get(1, 0)) < LUMA_MAX);
}

#[test]
fn stretch_uniform_image_is_degenerate() {
    let t = srgb_table();
    let img = image(2, 2, vec![px(30, 60, 90); 4]);
    assert_eq!(stretch_by_luminance(&img, &t).unwrap_err(), FilterError::DegenerateLuminanceRange);
    let empty = image(0, 3, vec![]);
    assert_eq!(stretch_by_luminance(&empty, &t).unwrap_err(), FilterError::DegenerateLuminanceRange);
}

#[test]
fn quantize_single_entry_palette_paints_everything() {
    let t = srgb_table();
    let img = image(3, 1, vec![px(0, 0, 0), px(200, 10, 90), px(255, 255, 255)]);
    let palette = Palette::new(vec![entry(9, 8, 7, 1234)]);
    let out = quantize(&img, &palette, &t).unwrap();
    assert_eq!(out.pixels().clone(), vec![px(9, 8, 7); 3]);
}

#[test]
fn quantize_empty_palette_fails() {
    let t = srgb_table();
    let img = image(1, 1, vec![px(1, 2, 3)]);
    assert_eq!(quantize(&img, &Palette::new(vec![]), &t).unwrap_err(), FilterError::EmptyPalette);
}

#[test]
fn milk_palette_nearest_entries() {
    let milk = Palette::milk();
    assert_eq!(milk.len(), 3);
    assert_eq!(milk.nearest_entry(9_000_000_000), 0);
    assert_eq!(milk.nearest_entry(3_600_000_000), 2);
    assert_eq!(milk.nearest_entry(3_800_000_000), 1);
    assert_eq!(milk.nearest_entry(0), 2);
}

#[test]
fn nearest_entry_ties_go_to_first() {
    let palette = Palette::new(vec![entry(1, 1, 1, 100), entry(2, 2, 2, 300), entry(3, 3, 3, 100)]);
    assert_eq!(palette.nearest_entry(200), 0);
    assert_eq!(palette.nearest_entry(100), 0);
    assert_eq!(palette.nearest_entry(250), 1);
}

#[test]
fn milk_filter_recolors_by_luminance() {
    let t = srgb_table();
    let img = image(2, 1, vec![px(255, 255, 255), px(0, 0, 0)]);
    let out = apply_milk_filter(&img, &t);
    assert_eq!(out.pixels().clone(), vec![px(170, 51, 51), px(12, 12, 20)]);
    let direct = quantize(&img, &Palette::milk(), &t).unwrap();
    assert_eq!(direct.pixels().clone(), out.pixels().clone());
}

#[test]
fn palette_from_colors_normalizes_brightness() {
    let p = palette_from_colors(&vec![px(0, 0, 0), px(255, 255, 255), px(51, 51, 51)]);
    assert_eq!(
        p.entries().clone(),
        vec![entry(0, 0, 0, 0), entry(255, 255, 255, LUMA_MAX), entry(51, 51, 51, 2_000_000_000)]
    );
    let q = palette_from_colors(&vec![px(10, 20, 30), px(40, 50, 60)]);
    assert_eq!(q.entries()[0].luma, 0);
    assert_eq!(q.entries()[1].luma, LUMA_MAX);
}

#[test]
fn palette_from_equal_colors_keeps_mean() {
    let p = palette_from_colors(&vec![px(51, 51, 51), px(0, 102, 51)]);
    assert_eq!(p.entries()[0].luma, 2_000_000_000);
    assert_eq!(p.entries()[1].luma, 2_000_000_000);
    assert_eq!(palette_from_colors(&vec![]).len(), 0);
}

#[test]
fn draws_stay_in_window() {
    let mut rng = StdRng::seed_from_u64(7);
    let mut seen_low_and_high = (false, false);
    for _ in 0..500 {
        let d = draw_color(20, &mut rng);
        assert!(d.mid < 255);
        let lo = d.mid.saturating_sub(20);
        let hi = d.mid.saturating_add(20);
        for c in [d.color.r, d.color.g, d.color.b] {
            assert!(lo <= c && c <= hi);
            if c > lo {
                seen_low_and_high.1 = true;
            }
        }
        if d.mid > 0 {
            seen_low_and_high.0 = true;
        }
    }
    assert_eq!(seen_low_and_high, (true, true));
}

#[test]
fn generate_palette_has_count_entries() {
    let mut rng = StdRng::seed_from_u64(42);
    let p = generate_palette(6, 40, &mut rng).unwrap();
    assert_eq!(p.len(), 6);
    let lumas: Vec<u64> = p.entries().iter().map(|e| e.luma).collect();
    if lumas.iter().any(|&l| l != lumas[0]) {
        assert_eq!(*lumas.iter().min().unwrap(), 0);
        assert_eq!(*lumas.iter().max().unwrap(), LUMA_MAX);
    }
}

#[test]
fn generate_palette_rejects_bad_arguments() {
    let mut rng = StdRng::seed_from_u64(1);
    assert_eq!(generate_palette(3, 0, &mut rng).unwrap_err(), FilterError::InvalidRange);
    assert_eq!(generate_palette(3, 255, &mut rng).unwrap_err(), FilterError::InvalidRange);
    assert_eq!(generate_palette(0, 10, &mut rng).unwrap_err(), FilterError::EmptyPalette);
    assert_eq!(generate_palette(1, 254, &mut rng).unwrap().len(), 1);
}

#[test]
fn random_filters_make_one_image_each() {
    let t = srgb_table();
    let img = image(2, 2, vec![px(0, 0, 0), px(90, 90, 90), px(180, 30, 30), px(255, 255, 255)]);
    let mut rng = StdRng::seed_from_u64(3);
    let outs = apply_random_filters(&img, &t, 3, 4, 30, &mut rng).unwrap();
    assert_eq!(outs.len(), 3);
    for out in &outs {
        assert_eq!(out.width(), 2);
        assert_eq!(out.height(), 2);
    }
    assert_eq!(apply_random_filters(&img, &t, 3, 4, 0, &mut rng).unwrap_err(), FilterError::InvalidRange);
    assert_eq!(apply_random_filters(&img, &t, 3, 0, 9, &mut rng).unwrap_err(), FilterError::EmptyPalette);
    assert_eq!(apply_random_filters(&img, &t, 0, 2, 9, &mut rng).unwrap().len(), 0);
}

#[test]
fn fit_dimensions_keeps_aspect() {
    assert_eq!(fit_dimensions(400, 200, 256), (256, 128));
    assert_eq!(fit_dimensions(200, 400, 256), (128, 256));
    assert_eq!(fit_dimensions(300, 200, 100), (100, 67));
    assert_eq!(fit_dimensions(200, 300, 100), (67, 100));
    assert_eq!(fit_dimensions(50, 50, 10), (10, 10));
    assert_eq!(fit_dimensions(0, 0, 5), (0, 5));
}

#[test]
fn image_rejects_wrong_pixel_count() {
    assert!(Image::new(2, 2, vec![px(0, 0, 0); 3]).is_none());
    let img = image(2, 2, vec![px(1, 1, 1), px(2, 2, 2), px(3, 3, 3), px(4, 4, 4)]);
    assert_eq!(img.get(1, 0), px(2, 2, 2));
    assert_eq!(img.get(0, 1), px(3, 3, 3));
}
