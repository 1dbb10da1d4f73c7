use vstd::prelude::*;
use crate::raster::Pixel;

verus! {

/// Linear light of a full channel, in millionths.
pub const LIN_MAX: u32 = 1_000_000;

/// Relative luminance 1.0: the channel weights 2126, 7152 and 722 sum to
/// 10000, times `LIN_MAX`.
pub const LUMA_MAX: u64 = 10_000_000_000;

/// A table decoding each 8-bit sRGB code to linear light: code 0 is dark, code
/// 255 is full, the table never decreases, and it stays on or under the
/// identity line (the sRGB curve is convex).
pub open spec fn table_wf(t: Seq<u32>) -> bool {
    &&& t.len() == 256
    &&& t[0] == 0
    &&& t[255] == LIN_MAX
    &&& forall|i: int, j: int| 0 <= i <= j < 256 ==> #[trigger] t[i] <= #[trigger] t[j]
    &&& forall|i: int| 0 <= i < 256 ==> 255 * #[trigger] t[i] <= i * LIN_MAX
}

/// Relative luminance of `p` under the decoding `t`: the WCAG 2.1 weighted sum
/// of the decoded channels, in units of `1 / LUMA_MAX`.
pub open spec fn luma_of(t: Seq<u32>, p: Pixel) -> int {
    2126 * t[p.r as int] + 7152 * t[p.g as int] + 722 * t[p.b as int]
}

/// The sRGB decoding of every 8-bit code, in millionths of full linear light.
#[derive(Clone, Debug)]
pub struct LinearTable {
    values: Vec<u32>,
}

impl View for LinearTable {
    type V = Seq<u32>;

    closed spec fn view(&self) -> Seq<u32> {
        self.values@
    }
}

impl LinearTable {
    pub open spec fn wf(&self) -> bool {
        table_wf(self@)
    }

    /// Takes the decoded value of each code 0 to 255; `None` unless they form a
    /// valid decoding table.
    pub fn new(values: Vec<u32>) -> (r: Option<LinearTable>)
        ensures
            r is Some <==> table_wf(values@),
            r matches Some(t) ==> t@ == values@,
    {
        if values.len() != 256 || values[0] != 0 || values[255] != LIN_MAX {
            return None;
        }
        let mut i: usize = 0;
        while i < 256
            invariant
                values@.len() == 256,
                i <= 256,
                forall|a: int, b: int| 0 <= a <= b < i ==> #[trigger] values@[a] <= #[trigger] values@[b],
                forall|a: int| 0 <= a < i ==> 255 * #[trigger] values@[a] <= a * LIN_MAX,
            decreases 256 - i,
        {
            assert((i as u64) * (LIN_MAX as u64) <= 256 * 1_000_000) by (nonlinear_arith)
                requires
                    i < 256,
            ;
            if (values[i] as u64) * 255 > (i as u64) * (LIN_MAX as u64) {
                return None;
            }
            if i > 0 && values[i - 1] > values[i] {
                assert(!table_wf(values@)) by {
                    assert(values@[i - 1] <= values@[i as int] ==> false);
                }
                return None;
            }
            proof {
                assert forall|a: int, b: int| 0 <= a <= b < i + 1 implies #[trigger] values@[a]
                    <= #[trigger] values@[b] by {
                    if b == i && a < b {
                        assert(values@[a] <= values@[i - 1]);
                    }
                }
            }
            i += 1;
        }
        Some(LinearTable { values })
    }

    /// Relative luminance of `p`, in units of `1 / LUMA_MAX`.
    pub fn relative_luminance(&self, p: Pixel) -> (l: u64)
        requires
            self.wf(),
        ensures
            l == luma_of(self@, p),
            l <= LUMA_MAX,
    {
        proof {
            lemma_luma_bounds(self@, p);
        }
        let r = self.values[p.r as usize] as u64;
        let g = self.values[p.g as usize] as u64;
        let b = self.values[p.b as usize] as u64;
        2126 * r + 7152 * g + 722 * b
    }
}

/// Every luminance lies in `[0, LUMA_MAX]`.
pub proof fn lemma_luma_bounds(t: Seq<u32>, p: Pixel)
    requires
        table_wf(t),
    ensures
        0 <= luma_of(t, p) <= LUMA_MAX,
{
    assert(t[p.r as int] <= t[255]);
    assert(t[p.g as int] <= t[255]);
    assert(t[p.b as int] <= t[255]);
}

/// Relative luminance never decreases as one channel grows with the other two
/// held fixed.
pub proof fn lemma_luma_monotone(t: Seq<u32>, p: Pixel, q: Pixel)
    requires
        table_wf(t),
        (p.g == q.g && p.b == q.b && p.r <= q.r) || (p.r == q.r && p.b == q.b && p.g <= q.g) || (
        p.r == q.r && p.g == q.g && p.b <= q.b),
    ensures
        luma_of(t, p) <= luma_of(t, q),
{
    assert(t[p.r as int] <= t[q.r as int]);
    assert(t[p.g as int] <= t[q.g as int]);
    assert(t[p.b as int] <= t[q.b as int]);
}

} // verus!
