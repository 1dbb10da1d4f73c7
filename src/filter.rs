use vstd::prelude::*;
use rand::rngs::StdRng;
use crate::error::FilterError;
use crate::generate::{colors_of, generate_palette, in_window, palette_of, Draw};
use crate::luminance::LinearTable;
use crate::quantize::{milk_entries, quantize, quantized, Palette};
use crate::raster::Image;

verus! {

/// Recolors `img` with the milk palette.
pub fn apply_milk_filter(img: &Image, table: &LinearTable) -> (out: Image)
    requires
        img.wf(),
        table.wf(),
    ensures
        out.wf(),
        out.spec_width() == img.spec_width(),
        out.spec_height() == img.spec_height(),
        out.px() == quantized(milk_entries(), table@, img.px()),
{
    let palette = Palette::milk();
    match quantize(img, &palette, table) {
        Ok(out) => out,
        Err(_) => {
            assert(false);
            img.clone()
        },
    }
}

/// Recolors `img` `n` times, each time against a freshly generated palette of
/// `count` colors drawn with half-width `range`. The range and count are
/// checked as `generate_palette` checks them, once, before any work.
pub fn apply_random_filters(
    img: &Image,
    table: &LinearTable,
    n: usize,
    count: usize,
    range: u8,
    rng: &mut StdRng,
) -> (r: Result<Vec<Image>, FilterError>)
    requires
        img.wf(),
        table.wf(),
    ensures
        !(0 < range < 255) ==> r == Err::<Vec<Image>, FilterError>(FilterError::InvalidRange),
        0 < range < 255 && count == 0 ==> r == Err::<Vec<Image>, FilterError>(
            FilterError::EmptyPalette,
        ),
        0 < range < 255 && count > 0 ==> r is Ok,
        r matches Ok(outs) ==> outs@.len() == n && forall|i: int|
            0 <= i < n ==> {
                let out = #[trigger] outs@[i];
                &&& out.wf()
                &&& out.spec_width() == img.spec_width()
                &&& out.spec_height() == img.spec_height()
                &&& exists|ds: Seq<Draw>|
                    ds.len() == count && (forall|j: int|
                        0 <= j < count ==> in_window(#[trigger] ds[j], range as int)) && out.px()
                        == quantized(#[trigger] palette_of(colors_of(ds)), table@, img.px())
            },
{
    if range == 0 || range == 255 {
        return Err(FilterError::InvalidRange);
    }
    if count == 0 {
        return Err(FilterError::EmptyPalette);
    }
    let mut outs: Vec<Image> = Vec::with_capacity(n);
    let mut k: usize = 0;
    while k < n
        invariant
            img.wf(),
            table.wf(),
            0 < range < 255,
            count > 0,
            k <= n,
            outs@.len() == k,
            forall|i: int|
                0 <= i < k ==> {
                    let out = #[trigger] outs@[i];
                    &&& out.wf()
                    &&& out.spec_width() == img.spec_width()
                    &&& out.spec_height() == img.spec_height()
                    &&& exists|ds: Seq<Draw>|
                        ds.len() == count && (forall|j: int|
                            0 <= j < count ==> in_window(#[trigger] ds[j], range as int))
                            && out.px() == quantized(
                            #[trigger] palette_of(colors_of(ds)),
                            table@,
                            img.px(),
                        )
                },
        decreases n - k,
    {
        let palette = match generate_palette(count, range, rng) {
            Ok(p) => p,
            Err(e) => {
                assert(false);
                return Err(e);
            },
        };
        let out = match quantize(img, &palette, table) {
            Ok(o) => o,
            Err(e) => {
                proof {
                    let ds = choose|ds: Seq<Draw>|
                        ds.len() == count && (forall|j: int|
                            0 <= j < count ==> in_window(#[trigger] ds[j], range as int))
                            && palette@ == #[trigger] palette_of(colors_of(ds));
                    assert(palette_of(colors_of(ds)).len() == count);
                }
                return Err(e);
            },
        };
        outs.push(out);
        k += 1;
    }
    Ok(outs)
}

/// Width and height that fit `width` by `height` into a square of side
/// `max_dimension`, keeping the aspect ratio: the longer side becomes
/// `max_dimension` and the shorter is scaled and rounded to nearest (halves
/// up). A 0 by 0 size gives `(0, max_dimension)`.
pub open spec fn fitted(width: int, height: int, max_dimension: int) -> (int, int) {
    if width > height {
        (max_dimension, (2 * height * max_dimension + width) / (2 * width))
    } else if height == 0 {
        (0, max_dimension)
    } else {
        ((2 * width * max_dimension + height) / (2 * height), max_dimension)
    }
}

/// The size a resize to at most `max_dimension` on the longer side targets.
pub fn fit_dimensions(width: u32, height: u32, max_dimension: u32) -> (r: (u32, u32))
    ensures
        r.0 == fitted(width as int, height as int, max_dimension as int).0,
        r.1 == fitted(width as int, height as int, max_dimension as int).1,
{
    let w = width as u128;
    let h = height as u128;
    let m = max_dimension as u128;
    if width > height {
        proof {
            assert(2 * h * m + w <= 4 * 0x1_0000_0000u128 * 0x1_0000_0000u128) by (nonlinear_arith)
                requires
                    h < 0x1_0000_0000,
                    m < 0x1_0000_0000,
                    w < 0x1_0000_0000,
            ;
            assert((2 * h * m + w) / (2 * w) <= m) by (nonlinear_arith)
                requires
                    h < w,
                    w > 0,
            ;
        }
        (max_dimension, ((2 * h * m + w) / (2 * w)) as u32)
    } else if height == 0 {
        (0, max_dimension)
    } else {
        proof {
            assert(2 * w * m + h <= 4 * 0x1_0000_0000u128 * 0x1_0000_0000u128) by (nonlinear_arith)
                requires
                    h < 0x1_0000_0000,
                    m < 0x1_0000_0000,
                    w < 0x1_0000_0000,
            ;
            assert(2 * w * m + h < 2 * h * (m + 1)) by (nonlinear_arith)
                requires
                    w <= h,
                    h > 0,
            ;
            assert((2 * w * m + h) / (2 * h) <= m) by (nonlinear_arith)
                requires
                    2 * w * m + h < 2 * h * (m + 1),
                    h > 0,
            ;
        }
        let v = (2 * w * m + h) / (2 * h);
        (v as u32, max_dimension)
    }
}

} // verus!
