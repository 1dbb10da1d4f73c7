use vstd::prelude::*;
use rand::Rng;
use rand::rngs::StdRng;
use crate::error::FilterError;
use crate::luminance::LUMA_MAX;
use crate::quantize::{Palette, PaletteEntry};
use crate::raster::Pixel;

verus! {

/// rand's `StdRng`, the random source palettes are drawn from; opaque here.
#[verifier::external_type_specification]
#[verifier::external_body]
pub struct ExStdRng(StdRng);

/// Relies on rand's `Rng::gen_range` over an inclusive range of `u8`: the value
/// drawn lies between the bounds (it panics only when `lo > hi`).
#[verifier::external_body]
fn draw_between(rng: &mut StdRng, lo: u8, hi: u8) -> (v: u8)
    requires
        lo <= hi,
    ensures
        lo <= v <= hi,
{
    rng.gen_range(lo..=hi)
}

/// One randomly drawn palette color and the midpoint it was drawn around.
#[derive(Clone, Copy, Debug, PartialEq, Eq, Structural)]
pub struct Draw {
    pub mid: u8,
    pub color: Pixel,
}

/// Lower end of the window of half-width `range` around `v`, clipped at 0.
pub open spec fn window_lo(v: int, range: int) -> int {
    if v < range {
        0
    } else {
        v - range
    }
}

/// Upper end of the window of half-width `range` around `v`, clipped at 255.
pub open spec fn window_hi(v: int, range: int) -> int {
    if v > 255 - range {
        255
    } else {
        v + range
    }
}

/// The midpoint lies in `[0, 255)` and each channel in the clipped window
/// around it.
pub open spec fn in_window(d: Draw, range: int) -> bool {
    let lo = window_lo(d.mid as int, range);
    let hi = window_hi(d.mid as int, range);
    &&& d.mid < 255
    &&& lo <= d.color.r <= hi
    &&& lo <= d.color.g <= hi
    &&& lo <= d.color.b <= hi
}

/// The sum of the three channels: three times their mean, in units of 1/255.
pub open spec fn brightness(p: Pixel) -> int {
    p.r + p.g + p.b
}

/// Least brightness among the first `n` colors (0 for none).
pub open spec fn min_bright_in(cs: Seq<Pixel>, n: nat) -> int
    decreases n,
{
    if n == 0 {
        0
    } else if n == 1 {
        brightness(cs[0])
    } else {
        let m = min_bright_in(cs, (n - 1) as nat);
        let v = brightness(cs[n - 1]);
        if v < m {
            v
        } else {
            m
        }
    }
}

/// Greatest brightness among the first `n` colors (0 for none).
pub open spec fn max_bright_in(cs: Seq<Pixel>, n: nat) -> int
    decreases n,
{
    if n == 0 {
        0
    } else if n == 1 {
        brightness(cs[0])
    } else {
        let m = max_bright_in(cs, (n - 1) as nat);
        let v = brightness(cs[n - 1]);
        if v > m {
            v
        } else {
            m
        }
    }
}

/// Brightness `s` min-max normalized to `[0, LUMA_MAX]` over `[lo, hi]`; when
/// all brightnesses are equal there is no range to normalize over, and the mean
/// of the channels is kept as it is.
pub open spec fn normalized_luma(s: int, lo: int, hi: int) -> int {
    if lo == hi {
        s * LUMA_MAX / 765
    } else {
        (s - lo) * LUMA_MAX / (hi - lo)
    }
}

/// The palette made of `cs`, each color carrying its normalized brightness.
pub open spec fn palette_of(cs: Seq<Pixel>) -> Seq<PaletteEntry> {
    Seq::new(
        cs.len(),
        |i: int|
            PaletteEntry {
                color: cs[i],
                luma: normalized_luma(
                    brightness(cs[i]),
                    min_bright_in(cs, cs.len()),
                    max_bright_in(cs, cs.len()),
                ) as u64,
            },
    )
}

/// The colors of a sequence of draws.
pub open spec fn colors_of(ds: Seq<Draw>) -> Seq<Pixel> {
    Seq::new(ds.len(), |i: int| ds[i].color)
}

proof fn lemma_bright_extremes(cs: Seq<Pixel>, n: nat)
    requires
        1 <= n <= cs.len(),
    ensures
        forall|i: int| 0 <= i < n ==> min_bright_in(cs, n) <= brightness(#[trigger] cs[i]),
        forall|i: int| 0 <= i < n ==> brightness(#[trigger] cs[i]) <= max_bright_in(cs, n),
        0 <= min_bright_in(cs, n) <= max_bright_in(cs, n) <= 765,
    decreases n,
{
    if n > 1 {
        lemma_bright_extremes(cs, (n - 1) as nat);
    }
}

/// A palette built from a sequence of draws has one entry per draw, in order,
/// whose color is that draw's, within the window around its midpoint.
pub proof fn lemma_generated_entries_in_window(ds: Seq<Draw>, range: int)
    requires
        forall|i: int| 0 <= i < ds.len() ==> in_window(#[trigger] ds[i], range),
    ensures
        palette_of(colors_of(ds)).len() == ds.len(),
        forall|i: int|
            0 <= i < ds.len() ==> {
                let c = (#[trigger] palette_of(colors_of(ds))[i]).color;
                let lo = window_lo(ds[i].mid as int, range);
                let hi = window_hi(ds[i].mid as int, range);
                &&& c == ds[i].color
                &&& lo <= c.r <= hi
                &&& lo <= c.g <= hi
                &&& lo <= c.b <= hi
            },
{
    assert forall|i: int| 0 <= i < ds.len() implies (#[trigger] palette_of(colors_of(ds))[i]).color
        == ds[i].color by {
        assert(in_window(ds[i], range));
    }
}

/// Draws one color: a midpoint in `[0, 255)`, then each channel in the window
/// of half-width `range` around it, clipped to `[0, 255]`.
pub fn draw_color(range: u8, rng: &mut StdRng) -> (d: Draw)
    requires
        0 < range < 255,
    ensures
        in_window(d, range as int),
{
    let mid = draw_between(rng, 0, 254);
    let lo: u8 = if mid < range {
        0
    } else {
        mid - range
    };
    let hi: u8 = if mid > 255 - range {
        255
    } else {
        mid + range
    };
    let r = draw_between(rng, lo, hi);
    let g = draw_between(rng, lo, hi);
    let b = draw_between(rng, lo, hi);
    Draw { mid, color: Pixel { r, g, b } }
}

/// The palette of `colors`, each entry's luminance being its channel mean
/// min-max normalized over all of them (kept unnormalized when all are equal).
pub fn palette_from_colors(colors: &Vec<Pixel>) -> (p: Palette)
    ensures
        p@ == palette_of(colors@),
{
    let n = colors.len();
    let mut entries: Vec<PaletteEntry> = Vec::with_capacity(n);
    if n == 0 {
        assert(entries@ =~= palette_of(colors@));
        return Palette::new(entries);
    }
    let c0 = colors[0];
    let mut lo: u64 = c0.r as u64 + c0.g as u64 + c0.b as u64;
    let mut hi: u64 = lo;
    let mut k: usize = 1;
    while k < n
        invariant
            n == colors@.len(),
            1 <= k <= n,
            lo == min_bright_in(colors@, k as nat),
            hi == max_bright_in(colors@, k as nat),
        decreases n - k,
    {
        let c = colors[k];
        let s = c.r as u64 + c.g as u64 + c.b as u64;
        if s < lo {
            lo = s;
        }
        if s > hi {
            hi = s;
        }
        k += 1;
    }
    proof {
        lemma_bright_extremes(colors@, n as nat);
    }
    let mut k: usize = 0;
    while k < n
        invariant
            n == colors@.len(),
            k <= n,
            lo == min_bright_in(colors@, n as nat),
            hi == max_bright_in(colors@, n as nat),
            forall|i: int| 0 <= i < n ==> lo <= brightness(#[trigger] colors@[i]) <= hi,
            hi <= 765,
            entries@ =~= palette_of(colors@).subrange(0, k as int),
        decreases n - k,
    {
        let c = colors[k];
        let s = c.r as u64 + c.g as u64 + c.b as u64;
        assert(lo <= brightness(colors@[k as int]) <= hi);
        let luma: u64 = if lo == hi {
            assert(s * 10_000_000_000 <= 765 * 10_000_000_000) by (nonlinear_arith)
                requires
                    s <= 765,
            ;
            s * LUMA_MAX / 765
        } else {
            assert((s - lo) * 10_000_000_000 <= 765 * 10_000_000_000) by (nonlinear_arith)
                requires
                    s - lo <= 765,
                    lo <= s,
            ;
            (s - lo) * LUMA_MAX / (hi - lo)
        };
        entries.push(PaletteEntry { color: c, luma });
        k += 1;
    }
    Palette::new(entries)
}

/// Generates a palette of `count` random colors drawn around random midpoints
/// with half-width `range` (in units of 1/255). A range outside `(0, 255)` is
/// rejected; so is a count of 0, which would give an empty palette.
pub fn generate_palette(count: usize, range: u8, rng: &mut StdRng) -> (r: Result<Palette, FilterError>)
    ensures
        !(0 < range < 255) ==> r == Err::<Palette, FilterError>(FilterError::InvalidRange),
        0 < range < 255 && count == 0 ==> r == Err::<Palette, FilterError>(
            FilterError::EmptyPalette,
        ),
        0 < range < 255 && count > 0 ==> r is Ok,
        r matches Ok(p) ==> exists|ds: Seq<Draw>|
            ds.len() == count && (forall|i: int| 0 <= i < count ==> in_window(#[trigger] ds[i], range as int))
                && p@ == #[trigger] palette_of(colors_of(ds)),
{
    if range == 0 || range == 255 {
        return Err(FilterError::InvalidRange);
    }
    if count == 0 {
        return Err(FilterError::EmptyPalette);
    }
    let mut colors: Vec<Pixel> = Vec::with_capacity(count);
    let ghost mut ds: Seq<Draw> = Seq::empty();
    let mut k: usize = 0;
    while k < count
        invariant
            0 < range < 255,
            k <= count,
            ds.len() == k,
            forall|i: int| 0 <= i < k ==> in_window(#[trigger] ds[i], range as int),
            colors@ =~= colors_of(ds),
        decreases count - k,
    {
        let d = draw_color(range, rng);
        colors.push(d.color);
        proof {
            ds = ds.push(d);
        }
        k += 1;
    }
    let p = palette_from_colors(&colors);
    assert(p@ == palette_of(colors_of(ds)));
    Ok(p)
}

} // verus!
