use vstd::prelude::*;

verus! {

/// One sRGB-encoded color sample, each channel standing for `channel / 255`.
#[derive(Clone, Copy, Debug, PartialEq, Eq, Structural)]
pub struct Pixel {
    pub r: u8,
    pub g: u8,
    pub b: u8,
}

impl Pixel {
    pub fn new(r: u8, g: u8, b: u8) -> (p: Pixel)
        ensures
            p == (Pixel { r, g, b }),
    {
        Pixel { r, g, b }
    }
}

/// A `width` by `height` grid of pixels, stored row by row from the top left.
#[derive(Clone, Debug)]
pub struct Image {
    width: usize,
    height: usize,
    pixels: Vec<Pixel>,
}

impl Image {
    pub closed spec fn spec_width(&self) -> nat {
        self.width as nat
    }

    pub closed spec fn spec_height(&self) -> nat {
        self.height as nat
    }

    /// The pixels, row by row.
    pub closed spec fn px(&self) -> Seq<Pixel> {
        self.pixels@
    }

    pub open spec fn wf(&self) -> bool {
        self.px().len() == self.spec_width() * self.spec_height()
    }

    /// Builds an image from its pixels given row by row; `None` when their
    /// number is not `width * height`.
    pub fn new(width: usize, height: usize, pixels: Vec<Pixel>) -> (r: Option<Image>)
        ensures
            r is Some <==> pixels@.len() == width * height,
            r matches Some(img) ==> img.wf() && img.spec_width() == width
                && img.spec_height() == height && img.px() == pixels@,
    {
        let n = pixels.len();
        if height != 0 && width > usize::MAX / height {
            proof {
                assert(width * height > usize::MAX) by (nonlinear_arith)
                    requires
                        height != 0,
                        width > usize::MAX / height,
                ;
            }
            return None;
        }
        proof {
            assert(width * height <= usize::MAX) by (nonlinear_arith)
                requires
                    height == 0 || width <= usize::MAX / height,
            ;
        }
        if n != width * height {
            return None;
        }
        Some(Image { width, height, pixels })
    }

    pub fn width(&self) -> (w: usize)
        ensures
            w == self.spec_width(),
    {
        self.width
    }

    pub fn height(&self) -> (h: usize)
        ensures
            h == self.spec_height(),
    {
        self.height
    }

    /// The pixels, row by row.
    pub fn pixels(&self) -> (p: &Vec<Pixel>)
        ensures
            p@ == self.px(),
    {
        &self.pixels
    }

    /// The pixel in column `x` of row `y`.
    pub fn get(&self, x: usize, y: usize) -> (p: Pixel)
        requires
            self.wf(),
            x < self.spec_width(),
            y < self.spec_height(),
        ensures
            p == self.px()[y * self.spec_width() + x],
    {
        let n = self.pixels.len();
        proof {
            assert(y * self.width + x < self.width * self.height) by (nonlinear_arith)
                requires
                    x < self.width,
                    y < self.height,
            ;
        }
        assert(y * self.width + x < n);
        self.pixels[y * self.width + x]
    }

    /// An image of the same size whose pixels are `pixels`.
    pub(crate) fn with_pixels(&self, pixels: Vec<Pixel>) -> (r: Image)
        requires
            self.wf(),
            pixels@.len() == self.px().len(),
        ensures
            r.wf(),
            r.spec_width() == self.spec_width(),
            r.spec_height() == self.spec_height(),
            r.px() == pixels@,
    {
        Image { width: self.width, height: self.height, pixels }
    }
}

} // verus!
