use vstd::prelude::*;
use crate::error::FilterError;
use crate::luminance::{luma_of, LinearTable};
use crate::raster::{Image, Pixel};

verus! {

/// A palette color together with the luminance it is matched by.
#[derive(Clone, Copy, Debug, PartialEq, Eq, Structural)]
pub struct PaletteEntry {
    pub color: Pixel,
    pub luma: u64,
}

/// An ordered sequence of entries; earlier entries win ties.
#[derive(Clone, Debug)]
pub struct Palette {
    entries: Vec<PaletteEntry>,
}

/// Distance between two luminances.
pub open spec fn dist(a: int, b: int) -> int {
    if a >= b {
        a - b
    } else {
        b - a
    }
}

/// Index of the first entry among the first `n` whose luminance is closest to `l`.
pub open spec fn nearest_in(es: Seq<PaletteEntry>, l: int, n: nat) -> int
    decreases n,
{
    if n <= 1 {
        0
    } else {
        let k = nearest_in(es, l, (n - 1) as nat);
        if dist(es[n - 1].luma as int, l) < dist(es[k].luma as int, l) {
            n - 1
        } else {
            k
        }
    }
}

/// Index of the first entry of `es` whose luminance is closest to `l`.
pub open spec fn nearest(es: Seq<PaletteEntry>, l: int) -> int {
    nearest_in(es, l, es.len())
}

/// Each pixel of `px` replaced by the color of the palette entry nearest to it
/// in luminance under the decoding `t`.
pub open spec fn quantized(es: Seq<PaletteEntry>, t: Seq<u32>, px: Seq<Pixel>) -> Seq<Pixel> {
    Seq::new(px.len(), |k: int| es[nearest(es, luma_of(t, px[k]))].color)
}

/// The fixed three-color palette of the milk filter.
pub open spec fn milk_entries() -> Seq<PaletteEntry> {
    seq![
        PaletteEntry { color: Pixel { r: 170, g: 51, b: 51 }, luma: 8_500_000_000 },
        PaletteEntry { color: Pixel { r: 81, g: 38, b: 61 }, luma: 4_000_000_000 },
        PaletteEntry { color: Pixel { r: 12, g: 12, b: 20 }, luma: 3_300_000_000 },
    ]
}

impl View for Palette {
    type V = Seq<PaletteEntry>;

    closed spec fn view(&self) -> Seq<PaletteEntry> {
        self.entries@
    }
}

impl Palette {
    pub fn new(entries: Vec<PaletteEntry>) -> (p: Palette)
        ensures
            p@ == entries@,
    {
        Palette { entries }
    }

    /// The milk filter's palette: a red, a plum and a near-black.
    pub fn milk() -> (p: Palette)
        ensures
            p@ == milk_entries(),
    {
        let entries = vec![
            PaletteEntry { color: Pixel { r: 170, g: 51, b: 51 }, luma: 8_500_000_000 },
            PaletteEntry { color: Pixel { r: 81, g: 38, b: 61 }, luma: 4_000_000_000 },
            PaletteEntry { color: Pixel { r: 12, g: 12, b: 20 }, luma: 3_300_000_000 },
        ];
        assert(entries@ =~= milk_entries());
        Palette { entries }
    }

    pub fn entries(&self) -> (r: &Vec<PaletteEntry>)
        ensures
            r@ == self@,
    {
        &self.entries
    }

    pub fn len(&self) -> (n: usize)
        ensures
            n == self@.len(),
    {
        self.entries.len()
    }

    /// Index of the first entry whose luminance is closest to `luma`.
    pub fn nearest_entry(&self, luma: u64) -> (i: usize)
        requires
            self@.len() > 0,
        ensures
            i == nearest(self@, luma as int),
    {
        let mut best: usize = 0;
        let mut best_dist: u64 = if self.entries[0].luma >= luma {
            self.entries[0].luma - luma
        } else {
            luma - self.entries[0].luma
        };
        let mut j: usize = 1;
        while j < self.entries.len()
            invariant
                1 <= j <= self@.len(),
                best == nearest_in(self@, luma as int, j as nat),
                best_dist == dist(self@[best as int].luma as int, luma as int),
            decreases self@.len() - j,
        {
            proof {
                lemma_nearest_in_range(self@, luma as int, j as nat);
            }
            let e = self.entries[j].luma;
            let d = if e >= luma {
                e - luma
            } else {
                luma - e
            };
            if d < best_dist {
                best = j;
                best_dist = d;
            }
            j += 1;
        }
        best
    }
}

proof fn lemma_nearest_in_range(es: Seq<PaletteEntry>, l: int, n: nat)
    requires
        1 <= n,
    ensures
        0 <= nearest_in(es, l, n) < n,
    decreases n,
{
    if n > 1 {
        lemma_nearest_in_range(es, l, (n - 1) as nat);
    }
}

proof fn lemma_nearest_in_closest(es: Seq<PaletteEntry>, l: int, n: nat)
    requires
        1 <= n,
    ensures
        forall|j: int|
            0 <= j < n ==> dist(es[nearest_in(es, l, n)].luma as int, l) <= dist(
                #[trigger] es[j].luma as int,
                l,
            ),
        forall|j: int|
            0 <= j < nearest_in(es, l, n) ==> dist(es[nearest_in(es, l, n)].luma as int, l) < dist(
                #[trigger] es[j].luma as int,
                l,
            ),
    decreases n,
{
    lemma_nearest_in_range(es, l, n);
    if n > 1 {
        lemma_nearest_in_closest(es, l, (n - 1) as nat);
        lemma_nearest_in_range(es, l, (n - 1) as nat);
    }
}

/// The chosen entry is at least as close in luminance as every other entry,
/// and strictly closer than every entry before it: the first nearest wins.
pub proof fn lemma_nearest_is_closest(es: Seq<PaletteEntry>, l: int)
    requires
        es.len() > 0,
    ensures
        0 <= nearest(es, l) < es.len(),
        forall|j: int|
            0 <= j < es.len() ==> dist(es[nearest(es, l)].luma as int, l) <= dist(
                #[trigger] es[j].luma as int,
                l,
            ),
        forall|j: int|
            0 <= j < nearest(es, l) ==> dist(es[nearest(es, l)].luma as int, l) < dist(
                #[trigger] es[j].luma as int,
                l,
            ),
{
    lemma_nearest_in_range(es, l, es.len());
    lemma_nearest_in_closest(es, l, es.len());
}

/// Against a one-entry palette every pixel becomes that entry's color.
pub proof fn lemma_single_entry_palette(es: Seq<PaletteEntry>, t: Seq<u32>, px: Seq<Pixel>)
    requires
        es.len() == 1,
    ensures
        quantized(es, t, px).len() == px.len(),
        forall|k: int| 0 <= k < px.len() ==> #[trigger] quantized(es, t, px)[k] == es[0].color,
{
}

/// Recolors every pixel of `img` with the palette entry nearest to it in
/// luminance; fails exactly when the palette is empty.
pub fn quantize(img: &Image, palette: &Palette, table: &LinearTable) -> (r: Result<Image, FilterError>)
    requires
        img.wf(),
        table.wf(),
    ensures
        r is Err <==> palette@.len() == 0,
        r matches Err(e) ==> e == FilterError::EmptyPalette,
        r matches Ok(out) ==> out.wf() && out.spec_width() == img.spec_width()
            && out.spec_height() == img.spec_height() && out.px() == quantized(
            palette@,
            table@,
            img.px(),
        ),
{
    if palette.len() == 0 {
        return Err(FilterError::EmptyPalette);
    }
    let src = img.pixels();
    let mut out: Vec<Pixel> = Vec::with_capacity(src.len());
    let mut k: usize = 0;
    while k < src.len()
        invariant
            src@ == img.px(),
            palette@.len() > 0,
            table.wf(),
            k <= src@.len(),
            out@ =~= quantized(palette@, table@, img.px()).subrange(0, k as int),
        decreases src@.len() - k,
    {
        let l = table.relative_luminance(src[k]);
        let i = palette.nearest_entry(l);
        proof {
            lemma_nearest_in_range(palette@, l as int, palette@.len());
        }
        out.push(palette.entries()[i].color);
        k += 1;
    }
    Ok(img.with_pixels(out))
}

} // verus!
