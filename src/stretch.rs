use vstd::prelude::*;
use crate::error::FilterError;
use crate::luminance::{luma_of, table_wf, LinearTable, LIN_MAX, LUMA_MAX};
use crate::raster::{Image, Pixel};

verus! {

/// Least luminance among the first `n` pixels (`n >= 1`).
pub open spec fn min_luma_in(t: Seq<u32>, px: Seq<Pixel>, n: nat) -> int
    decreases n,
{
    if n <= 1 {
        luma_of(t, px[0])
    } else {
        let m = min_luma_in(t, px, (n - 1) as nat);
        let v = luma_of(t, px[n - 1]);
        if v < m {
            v
        } else {
            m
        }
    }
}

/// Greatest luminance among the first `n` pixels (`n >= 1`).
pub open spec fn max_luma_in(t: Seq<u32>, px: Seq<Pixel>, n: nat) -> int
    decreases n,
{
    if n <= 1 {
        luma_of(t, px[0])
    } else {
        let m = max_luma_in(t, px, (n - 1) as nat);
        let v = luma_of(t, px[n - 1]);
        if v > m {
            v
        } else {
            m
        }
    }
}

pub open spec fn min_luma(t: Seq<u32>, px: Seq<Pixel>) -> int {
    min_luma_in(t, px, px.len())
}

pub open spec fn max_luma(t: Seq<u32>, px: Seq<Pixel>) -> int {
    max_luma_in(t, px, px.len())
}

/// All pixels share one luminance (vacuously so for no pixels).
pub open spec fn uniform_luma(t: Seq<u32>, px: Seq<Pixel>) -> bool {
    forall|i: int, j: int|
        0 <= i < px.len() && 0 <= j < px.len() ==> luma_of(t, #[trigger] px[i]) == luma_of(
            t,
            #[trigger] px[j],
        )
}

/// One channel `c` of a pixel of luminance `l`, scaled by the ratio of its
/// min-max stretched luminance to `l` and clamped to 255 (the fraction is
/// dropped). A pixel of luminance 0 is already at the bottom of the range and
/// is passed through unchanged.
pub open spec fn stretch_channel(c: int, l: int, lo: int, hi: int) -> int {
    if l == 0 {
        c
    } else {
        let v = (c * (l - lo) * LUMA_MAX) / ((hi - lo) * l);
        if v > 255 {
            255
        } else {
            v
        }
    }
}

pub open spec fn stretch_pixel(t: Seq<u32>, p: Pixel, lo: int, hi: int) -> Pixel {
    let l = luma_of(t, p);
    Pixel {
        r: stretch_channel(p.r as int, l, lo, hi) as u8,
        g: stretch_channel(p.g as int, l, lo, hi) as u8,
        b: stretch_channel(p.b as int, l, lo, hi) as u8,
    }
}

/// Every pixel stretched against the least and greatest luminance of all.
pub open spec fn stretched(t: Seq<u32>, px: Seq<Pixel>) -> Seq<Pixel> {
    Seq::new(px.len(), |k: int| stretch_pixel(t, px[k], min_luma(t, px), max_luma(t, px)))
}

proof fn lemma_extremes(t: Seq<u32>, px: Seq<Pixel>, n: nat)
    requires
        1 <= n <= px.len(),
    ensures
        forall|i: int| 0 <= i < n ==> min_luma_in(t, px, n) <= luma_of(t, #[trigger] px[i]),
        forall|i: int| 0 <= i < n ==> luma_of(t, #[trigger] px[i]) <= max_luma_in(t, px, n),
        exists|i: int| 0 <= i < n && luma_of(t, #[trigger] px[i]) == min_luma_in(t, px, n),
        exists|i: int| 0 <= i < n && luma_of(t, #[trigger] px[i]) == max_luma_in(t, px, n),
    decreases n,
{
    if n > 1 {
        lemma_extremes(t, px, (n - 1) as nat);
        if luma_of(t, px[n - 1]) < min_luma_in(t, px, (n - 1) as nat) {
            assert(luma_of(t, px[n - 1]) == min_luma_in(t, px, n));
        }
        if luma_of(t, px[n - 1]) > max_luma_in(t, px, (n - 1) as nat) {
            assert(luma_of(t, px[n - 1]) == max_luma_in(t, px, n));
        }
    } else {
        assert(luma_of(t, px[0]) == min_luma_in(t, px, n));
        assert(luma_of(t, px[0]) == max_luma_in(t, px, n));
    }
}

proof fn lemma_uniform_iff(t: Seq<u32>, px: Seq<Pixel>)
    requires
        px.len() >= 1,
    ensures
        uniform_luma(t, px) <==> min_luma(t, px) == max_luma(t, px),
        min_luma(t, px) <= max_luma(t, px),
{
    lemma_extremes(t, px, px.len());
    let i = choose|i: int| 0 <= i < px.len() && luma_of(t, #[trigger] px[i]) == min_luma(t, px);
    let j = choose|j: int| 0 <= j < px.len() && luma_of(t, #[trigger] px[j]) == max_luma(t, px);
    if uniform_luma(t, px) {
        assert(luma_of(t, px[i]) == luma_of(t, px[j]));
    }
}

/// Each channel of `p`, scaled by `LUMA_MAX / luminance`, reaches full scale.
pub open spec fn saturates(t: Seq<u32>, p: Pixel) -> bool {
    &&& (p.r as int) * LUMA_MAX >= 255 * luma_of(t, p)
    &&& (p.g as int) * LUMA_MAX >= 255 * luma_of(t, p)
    &&& (p.b as int) * LUMA_MAX >= 255 * luma_of(t, p)
}

/// A gray pixel saturates, since sRGB decoding stays under the identity.
pub proof fn lemma_gray_saturates(t: Seq<u32>, p: Pixel)
    requires
        table_wf(t),
        p.r == p.g,
        p.g == p.b,
    ensures
        saturates(t, p),
{
    let c = p.r as int;
    let v = t[c] as int;
    assert(255 * v <= c * LIN_MAX);
    assert(luma_of(t, p) == 10000 * v);
    assert(c * LUMA_MAX >= 255 * (10000 * v)) by (nonlinear_arith)
        requires
            255 * v <= c * 1_000_000,
    ;
}

proof fn lemma_channel_at_min(c: int, lo: int, hi: int)
    requires
        0 <= c <= 255,
        0 < lo < hi,
    ensures
        stretch_channel(c, lo, lo, hi) == 0,
{
    assert(c * (lo - lo) * LUMA_MAX == 0);
    assert((hi - lo) * lo > 0) by (nonlinear_arith)
        requires
            0 < lo < hi,
    ;
}

proof fn lemma_channel_at_max(c: int, lo: int, hi: int)
    requires
        0 <= c <= 255,
        0 <= lo < hi,
        c * LUMA_MAX >= 255 * hi,
    ensures
        stretch_channel(c, hi, lo, hi) == 255,
{
    let num = c * (hi - lo) * LUMA_MAX;
    let den = (hi - lo) * hi;
    assert(den > 0) by (nonlinear_arith)
        requires
            0 <= lo < hi,
            den == (hi - lo) * hi,
    ;
    assert(num >= 255 * den) by (nonlinear_arith)
        requires
            num == c * (hi - lo) * LUMA_MAX,
            den == (hi - lo) * hi,
            c * LUMA_MAX >= 255 * hi,
            lo < hi,
    ;
    assert(num / den >= 255) by (nonlinear_arith)
        requires
            num >= 255 * den,
            den > 0,
    ;
}

proof fn lemma_pixel_at_min(t: Seq<u32>, p: Pixel, lo: int, hi: int)
    requires
        table_wf(t),
        luma_of(t, p) == lo,
        0 <= lo < hi,
    ensures
        luma_of(t, stretch_pixel(t, p, lo, hi)) == 0,
{
    if lo > 0 {
        lemma_channel_at_min(p.r as int, lo, hi);
        lemma_channel_at_min(p.g as int, lo, hi);
        lemma_channel_at_min(p.b as int, lo, hi);
    }
}

proof fn lemma_pixel_at_max(t: Seq<u32>, p: Pixel, lo: int, hi: int)
    requires
        table_wf(t),
        luma_of(t, p) == hi,
        saturates(t, p),
        0 <= lo < hi,
    ensures
        luma_of(t, stretch_pixel(t, p, lo, hi)) == LUMA_MAX,
{
    lemma_channel_at_max(p.r as int, lo, hi);
    lemma_channel_at_max(p.g as int, lo, hi);
    lemma_channel_at_max(p.b as int, lo, hi);
}

proof fn lemma_darkest_to_zero(t: Seq<u32>, px: Seq<Pixel>)
    requires
        table_wf(t),
        px.len() >= 1,
        min_luma(t, px) < max_luma(t, px),
    ensures
        forall|k: int|
            0 <= k < px.len() && luma_of(t, px[k]) == min_luma(t, px) ==> luma_of(
                t,
                #[trigger] stretched(t, px)[k],
            ) == 0,
{
    let lo = min_luma(t, px);
    let hi = max_luma(t, px);
    lemma_extremes(t, px, px.len());
    assert forall|k: int|
        0 <= k < px.len() && luma_of(t, px[k]) == lo implies luma_of(
        t,
        #[trigger] stretched(t, px)[k],
    ) == 0 by {
        crate::luminance::lemma_luma_bounds(t, px[k]);
        lemma_pixel_at_min(t, px[k], lo, hi);
    }
}

proof fn lemma_brightest_to_full(t: Seq<u32>, px: Seq<Pixel>)
    requires
        table_wf(t),
        px.len() >= 1,
        min_luma(t, px) < max_luma(t, px),
    ensures
        forall|k: int|
            0 <= k < px.len() && luma_of(t, px[k]) == max_luma(t, px) && saturates(t, px[k])
                ==> luma_of(t, #[trigger] stretched(t, px)[k]) == LUMA_MAX,
{
    let lo = min_luma(t, px);
    let hi = max_luma(t, px);
    lemma_extremes(t, px, px.len());
    let i = choose|i: int| 0 <= i < px.len() && luma_of(t, #[trigger] px[i]) == lo;
    crate::luminance::lemma_luma_bounds(t, px[i]);
    assert forall|k: int|
        0 <= k < px.len() && luma_of(t, px[k]) == hi && saturates(t, px[k]) implies luma_of(
        t,
        #[trigger] stretched(t, px)[k],
    ) == LUMA_MAX by {
        lemma_pixel_at_max(t, px[k], lo, hi);
    }
}

proof fn lemma_min_is_zero(t: Seq<u32>, q: Seq<Pixel>, i: int)
    requires
        table_wf(t),
        0 <= i < q.len(),
        luma_of(t, q[i]) == 0,
    ensures
        min_luma(t, q) == 0,
{
    lemma_extremes(t, q, q.len());
    let j = choose|j: int| 0 <= j < q.len() && luma_of(t, #[trigger] q[j]) == min_luma(t, q);
    crate::luminance::lemma_luma_bounds(t, q[j]);
}

proof fn lemma_max_is_full(t: Seq<u32>, q: Seq<Pixel>, i: int)
    requires
        table_wf(t),
        0 <= i < q.len(),
        luma_of(t, q[i]) == LUMA_MAX,
    ensures
        max_luma(t, q) == LUMA_MAX,
{
    lemma_extremes(t, q, q.len());
    let j = choose|j: int| 0 <= j < q.len() && luma_of(t, #[trigger] q[j]) == max_luma(t, q);
    crate::luminance::lemma_luma_bounds(t, q[j]);
}

/// Where the luminances are not all equal, stretching sends every darkest
/// pixel to luminance 0 and every brightest pixel that saturates to full
/// luminance; so the darkest output pixel has luminance 0, and the brightest
/// has full luminance as soon as one brightest input pixel saturates (a gray
/// one always does).
pub proof fn lemma_stretch_spans_range(t: Seq<u32>, px: Seq<Pixel>)
    requires
        table_wf(t),
        !uniform_luma(t, px),
    ensures
        forall|k: int|
            0 <= k < px.len() && luma_of(t, px[k]) == min_luma(t, px) ==> luma_of(
                t,
                #[trigger] stretched(t, px)[k],
            ) == 0,
        forall|k: int|
            0 <= k < px.len() && luma_of(t, px[k]) == max_luma(t, px) && saturates(t, px[k])
                ==> luma_of(t, #[trigger] stretched(t, px)[k]) == LUMA_MAX,
        min_luma(t, stretched(t, px)) == 0,
        (exists|k: int|
            0 <= k < px.len() && luma_of(t, px[k]) == max_luma(t, px) && saturates(t, #[trigger] px[k]))
            ==> max_luma(t, stretched(t, px)) == LUMA_MAX,
{
    let out = stretched(t, px);
    lemma_uniform_iff(t, px);
    lemma_darkest_to_zero(t, px);
    lemma_brightest_to_full(t, px);
    lemma_extremes(t, px, px.len());
    let i = choose|i: int| 0 <= i < px.len() && luma_of(t, #[trigger] px[i]) == min_luma(t, px);
    assert(luma_of(t, out[i]) == 0);
    lemma_min_is_zero(t, out, i);
    if exists|k: int|
        0 <= k < px.len() && luma_of(t, px[k]) == max_luma(t, px) && saturates(t, #[trigger] px[k]) {
        let k = choose|k: int|
            0 <= k < px.len() && luma_of(t, px[k]) == max_luma(t, px) && saturates(t, #[trigger] px[k]);
        assert(luma_of(t, out[k]) == LUMA_MAX);
        lemma_max_is_full(t, out, k);
    }
}

fn stretch_channel_exec(c: u8, l: u64, lo: u64, hi: u64) -> (r: u8)
    requires
        lo <= l <= hi <= LUMA_MAX,
        lo < hi,
    ensures
        r == stretch_channel(c as int, l as int, lo as int, hi as int),
{
    if l == 0 {
        return c;
    }
    let d: u64 = l - lo;
    let w: u64 = hi - lo;
    proof {
        assert((c as int) * d <= 255 * 10_000_000_000int) by (nonlinear_arith)
            requires
                c <= 255,
                d <= 10_000_000_000int,
        ;
        assert((c as int) * d * 10_000_000_000int <= 255 * 10_000_000_000int * 10_000_000_000int)
            by (nonlinear_arith)
            requires
                (c as int) * d <= 255 * 10_000_000_000int,
        ;
        assert((w as int) * l <= 10_000_000_000int * 10_000_000_000int) by (nonlinear_arith)
            requires
                w <= 10_000_000_000int,
                l <= 10_000_000_000int,
        ;
        assert((w as int) * l > 0) by (nonlinear_arith)
            requires
                w > 0,
                l > 0,
        ;
    }
    let a = (c as u128) * (d as u128);
    let num = a * (LUMA_MAX as u128);
    let den = (w as u128) * (l as u128);
    let v = num / den;
    if v > 255 {
        255
    } else {
        v as u8
    }
}

/// Spreads the image's luminance over the whole range: each pixel's channels
/// are scaled by `stretched / luminance` and clamped, where `stretched` is its
/// luminance min-max normalized over the image. Fails when all pixels share one
/// luminance (no range to spread); a pixel of luminance 0 passes through.
pub fn stretch_by_luminance(img: &Image, table: &LinearTable) -> (r: Result<Image, FilterError>)
    requires
        img.wf(),
        table.wf(),
    ensures
        r is Err <==> uniform_luma(table@, img.px()),
        r matches Err(e) ==> e == FilterError::DegenerateLuminanceRange,
        r matches Ok(out) ==> out.wf() && out.spec_width() == img.spec_width()
            && out.spec_height() == img.spec_height() && out.px() == stretched(
            table@,
            img.px(),
        ),
{
    let src = img.pixels();
    let n = src.len();
    if n == 0 {
        return Err(FilterError::DegenerateLuminanceRange);
    }
    let first = table.relative_luminance(src[0]);
    let mut lo: u64 = first;
    let mut hi: u64 = first;
    let mut k: usize = 1;
    while k < n
        invariant
            src@ == img.px(),
            n == src@.len(),
            table.wf(),
            1 <= k <= n,
            lo == min_luma_in(table@, src@, k as nat),
            hi == max_luma_in(table@, src@, k as nat),
            hi <= LUMA_MAX,
        decreases n - k,
    {
        let l = table.relative_luminance(src[k]);
        if l < lo {
            lo = l;
        }
        if l > hi {
            hi = l;
        }
        k += 1;
    }
    proof {
        lemma_uniform_iff(table@, src@);
        lemma_extremes(table@, src@, n as nat);
    }
    if lo == hi {
        return Err(FilterError::DegenerateLuminanceRange);
    }
    let mut out: Vec<Pixel> = Vec::with_capacity(n);
    let mut k: usize = 0;
    while k < n
        invariant
            src@ == img.px(),
            n == src@.len(),
            table.wf(),
            k <= n,
            lo == min_luma(table@, src@),
            hi == max_luma(table@, src@),
            lo < hi,
            hi <= LUMA_MAX,
            forall|i: int| 0 <= i < n ==> lo <= luma_of(table@, #[trigger] src@[i]) <= hi,
            out@ =~= stretched(table@, src@).subrange(0, k as int),
        decreases n - k,
    {
        let p = src[k];
        let l = table.relative_luminance(p);
        proof {
            assert(lo <= luma_of(table@, src@[k as int]) <= hi);
        }
        let q = Pixel {
            r: stretch_channel_exec(p.r, l, lo, hi),
            g: stretch_channel_exec(p.g, l, lo, hi),
            b: stretch_channel_exec(p.b, l, lo, hi),
        };
        out.push(q);
        k += 1;
    }
    Ok(img.with_pixels(out))
}

} // verus!
