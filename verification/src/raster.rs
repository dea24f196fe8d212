//! The raster: a fixed-size grid of pixels.

use crate::color::Pixel;
use vstd::prelude::*;

verus! {

/// A grid of `width` by `height` pixels, stored row by row from the top
/// left: the pixel at column `x` of row `y` is entry `y * width + x`.
///
/// The number of stored pixels always equals `width * height`.
#[derive(Debug)]
pub struct Image {
    width: u32,
    height: u32,
    pixels: Vec<Pixel>,
}

impl View for Image {
    type V = Seq<Pixel>;

    /// All pixels of the image in row-major order.
    closed spec fn view(&self) -> Seq<Pixel> {
        self.pixels@
    }
}

/// A coordinate inside a grid addresses an entry of its row-major storage.
pub proof fn lemma_cell_index(width: int, height: int, x: int, y: int)
    requires
        0 <= x < width,
        0 <= y < height,
    ensures
        0 <= y * width + x < width * height,
{
    assert(y * width >= 0) by (nonlinear_arith)
        requires
            y >= 0,
            width >= 0,
    ;
    assert(y * width + width <= height * width) by (nonlinear_arith)
        requires
            y + 1 <= height,
            width >= 0,
    ;
    assert(height * width == width * height) by (nonlinear_arith);
}

impl Image {
    #[verifier::type_invariant]
    spec fn is_full(&self) -> bool {
        self.pixels@.len() == self.width * self.height
    }

    /// Number of columns.
    pub closed spec fn spec_width(&self) -> u32 {
        self.width
    }

    /// Number of rows.
    pub closed spec fn spec_height(&self) -> u32 {
        self.height
    }

    /// The pixel at column `x` of row `y`.
    pub open spec fn at(&self, x: int, y: int) -> Pixel {
        self@[y * self.spec_width() + x]
    }

    /// An image of the given size over pixels already known to fill it.
    pub(crate) fn from_parts(width: u32, height: u32, pixels: Vec<Pixel>) -> (out: Image)
        requires
            pixels@.len() == width * height,
        ensures
            out.spec_width() == width,
            out.spec_height() == height,
            out@ == pixels@,
    {
        Image { width, height, pixels }
    }

    /// Builds an image from its pixels in row-major order. The list must
    /// hold exactly `width * height` pixels.
    pub fn new(width: u32, height: u32, pixels: Vec<Pixel>) -> (out: Option<Image>)
        ensures
            pixels@.len() == width * height ==> (out matches Some(image) && image.spec_width()
                == width && image.spec_height() == height && image@ == pixels@),
            pixels@.len() != width * height ==> out is None,
    {
        assert(width * height <= 0xffff_ffff * 0xffff_ffff) by (nonlinear_arith)
            requires
                0 <= width <= 0xffff_ffff,
                0 <= height <= 0xffff_ffff,
        ;
        let cells: u64 = (width as u64) * (height as u64);
        if pixels.len() as u64 == cells {
            Some(Image::from_parts(width, height, pixels))
        } else {
            None
        }
    }

    /// Number of columns.
    #[verifier::when_used_as_spec(spec_width)]
    pub fn width(&self) -> (out: u32)
        ensures
            out == self.spec_width(),
    {
        self.width
    }

    /// Number of rows.
    #[verifier::when_used_as_spec(spec_height)]
    pub fn height(&self) -> (out: u32)
        ensures
            out == self.spec_height(),
    {
        self.height
    }

    /// Width and height, in this order.
    pub fn dimensions(&self) -> (out: (u32, u32))
        ensures
            out.0 == self.spec_width(),
            out.1 == self.spec_height(),
            self@.len() == out.0 * out.1,
    {
        proof {
            use_type_invariant(self);
        }
        (self.width, self.height)
    }

    /// All pixels in row-major order.
    pub fn pixels(&self) -> (out: &Vec<Pixel>)
        ensures
            out@ == self@,
            out@.len() == self.spec_width() * self.spec_height(),
    {
        proof {
            use_type_invariant(self);
        }
        &self.pixels
    }

    /// The pixel at column `x` of row `y`, or `None` outside the grid.
    pub fn get_pixel(&self, x: u32, y: u32) -> (out: Option<Pixel>)
        ensures
            x < self.spec_width() && y < self.spec_height() ==> out == Some(
                self.at(x as int, y as int),
            ),
            !(x < self.spec_width() && y < self.spec_height()) ==> out is None,
    {
        if x < self.width && y < self.height {
            proof {
                use_type_invariant(self);
                lemma_cell_index(self.width as int, self.height as int, x as int, y as int);
                assert(y * self.width <= 0xffff_ffff * 0xffff_ffff) by (nonlinear_arith)
                    requires
                        0 <= y <= 0xffff_ffff,
                        0 <= self.width <= 0xffff_ffff,
                ;
            }
            let index: u64 = (y as u64) * (self.width as u64) + (x as u64);
            assert(index < self.pixels.len());
            Some(self.pixels[index as usize])
        } else {
            None
        }
    }
}

impl Clone for Image {
    fn clone(&self) -> (out: Self)
        ensures
            out@ == self@,
            out.spec_width() == self.spec_width(),
            out.spec_height() == self.spec_height(),
    {
        proof {
            use_type_invariant(self);
        }
        let pixels = self.pixels.clone();
        assert(pixels@ =~= self.pixels@);
        Image { width: self.width, height: self.height, pixels }
    }
}

} // verus!
