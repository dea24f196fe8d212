//! The whole-image remap.

use crate::color::{Color, Pixel};
use crate::palette::{nearest_pixel, Palette};
use crate::raster::{lemma_cell_index, Image};
use rayon::iter::{IntoParallelRefIterator, ParallelIterator};
use vstd::prelude::*;

verus! {

/// The pixels of a remapped raster: each pixel of `pixels`, in place,
/// replaced by its nearest entry of `colors` under its own alpha.
pub open spec fn remap_pixels(colors: Seq<Color>, pixels: Seq<Pixel>) -> Seq<Pixel> {
    Seq::new(pixels.len(), |i: int| nearest_pixel(colors, pixels[i]))
}

/// `out` is what a remap of `source` against `colors` may leave behind,
/// whichever worker wrote which pixel and in whatever order: one pixel for
/// each source pixel, each the nearest entry for the source pixel at its
/// place.
pub open spec fn is_remap_of(colors: Seq<Color>, source: Seq<Pixel>, out: Seq<Pixel>) -> bool {
    &&& out.len() == source.len()
    &&& forall|i: int|
        0 <= i < source.len() ==> #[trigger] out[i] == nearest_pixel(colors, source[i])
}

/// Two remaps of the same pixels against the same palette agree pixel for
/// pixel: the outcome is settled by the inputs alone, not by scheduling.
pub proof fn lemma_remap_is_determined(
    colors: Seq<Color>,
    source: Seq<Pixel>,
    first: Seq<Pixel>,
    second: Seq<Pixel>,
)
    requires
        is_remap_of(colors, source, first),
        is_remap_of(colors, source, second),
    ensures
        first == second,
        first == remap_pixels(colors, source),
{
    assert(first =~= remap_pixels(colors, source));
    assert(second =~= remap_pixels(colors, source));
}

/// A remap leaves every alpha channel as it was.
pub proof fn lemma_remap_keeps_alpha(colors: Seq<Color>, source: Seq<Pixel>, i: int)
    requires
        0 <= i < source.len(),
    ensures
        remap_pixels(colors, source).len() == source.len(),
        remap_pixels(colors, source)[i].alpha == source[i].alpha,
{
}

/// Runs `Palette::closest_to` on every pixel on rayon's thread pool, by
/// `IntoParallelRefIterator::par_iter`, `ParallelIterator::map` and
/// `ParallelIterator::collect` into a `Vec`.
///
/// Not proved, taken from rayon: `map` applies the closure to each item of
/// the slice, and `collect` on this indexed iterator yields one answer per
/// item in the order of the slice, as a sequential `iter().map(..).collect()`
/// would. What the closure answers for one pixel is proved, in `closest_to`.
#[verifier::external_body]
fn closest_in_parallel(palette: &Palette, pixels: &Vec<Pixel>) -> (out: Vec<Pixel>)
    ensures
        out@ == remap_pixels(palette@, pixels@),
{
    pixels.par_iter().map(|pixel| palette.closest_to(pixel)).collect()
}

/// Replaces every pixel of `image` by the palette entry nearest to it,
/// keeping its alpha channel. The pixels are handled in parallel; the
/// result does not depend on how the work was shared out.
pub fn change_image_palette(palette: &Palette, image: Image) -> (out: Image)
    ensures
        out.spec_width() == image.spec_width(),
        out.spec_height() == image.spec_height(),
        out@ == remap_pixels(palette@, image@),
        forall|x: int, y: int|
            0 <= x < image.spec_width() && 0 <= y < image.spec_height() ==> #[trigger] out.at(x, y)
                == nearest_pixel(palette@, image.at(x, y)),
{
    let (width, height) = image.dimensions();
    let pixels = closest_in_parallel(palette, image.pixels());
    let out = Image::from_parts(width, height, pixels);
    proof {
        assert forall|x: int, y: int| 0 <= x < width && 0 <= y < height implies #[trigger] out.at(
            x,
            y,
        ) == nearest_pixel(palette@, image.at(x, y)) by {
            lemma_cell_index(width as int, height as int, x, y);
        }
    }
    out
}

} // verus!
