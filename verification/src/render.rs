//! Rendering a field as eight-bit luminance.

use vstd::prelude::*;
use image::{ImageBuffer, Luma};
use crate::grid::{lemma_index_in_range, lemma_index_split, Field, Noise};
use crate::sample::{brightness, brightness_of};

verus! {

/// A grayscale raster image with one byte of luminance per pixel, held as
/// the `ImageBuffer` of the `image` crate. Only [`image_rows`] speaks of
/// what it shows.
#[verifier::external_body]
pub struct Picture {
    pub buffer: ImageBuffer<Luma<u8>, Vec<u8>>,
}

/// The rows of a grayscale image, from the top one down, each row the
/// luminance of its pixels from left to right.
pub uninterp spec fn image_rows(image: Picture) -> Seq<Seq<u8>>;

/// The luminance of a field, row after row: the pixel in column `x` of row
/// `y` is entry `y * width + x`.
pub open spec fn raster(f: Field) -> Seq<u8> {
    Seq::new(f.cells.len(), |i: int| brightness_of(f.at(i % f.width, i / f.width)))
}

/// The first `height` rows of `width` bytes each that `bytes` holds.
pub open spec fn rows_of(width: int, height: int, bytes: Seq<u8>) -> Seq<Seq<u8>> {
    Seq::new(height as nat, |y: int| bytes.subrange(y * width, y * width + width))
}

/// Quantizes every sample of the field and lays the bytes out row after
/// row, as a raster image stores them.
pub fn render(noise: &Noise) -> (bytes: Vec<u8>)
    ensures
        bytes@ == raster(noise@),
        bytes.len() == noise@.width * noise@.height,
{
    let width: i32 = noise.width();
    let height: i32 = noise.height();
    let mut bytes: Vec<u8> = Vec::new();
    let mut y: i32 = 0;
    proof {
        assert(height * width == width * height) by (nonlinear_arith);
    }
    while y < height
        invariant
            noise@.wf(),
            width == noise@.width,
            height == noise@.height,
            0 <= y <= height,
            bytes.len() == y * width,
            y * width <= height * width,
            raster(noise@).len() == height * width,
            forall|i: int| 0 <= i < bytes.len() ==> bytes[i] == raster(noise@)[i],
        decreases height - y,
    {
        let mut x: i32 = 0;
        proof {
            lemma_index_in_range(height as int, width as int, y as int, 0);
        }
        while x < width
            invariant
                noise@.wf(),
                width == noise@.width,
                height == noise@.height,
                0 <= y < height,
                0 <= x <= width,
                bytes.len() == y * width + x,
                y * width + x <= height * width,
                raster(noise@).len() == height * width,
                forall|i: int| 0 <= i < bytes.len() ==> bytes[i] == raster(noise@)[i],
            decreases width - x,
        {
            proof {
                lemma_index_in_range(height as int, width as int, y as int, x as int);
                lemma_index_split(width as int, y as int, x as int);
                assert(height * width == width * height) by (nonlinear_arith);
            }
            bytes.push(brightness(noise.get(x, y)));
            x += 1;
        }
        proof {
            assert((y + 1) * width == y * width + width) by (nonlinear_arith);
        }
        y += 1;
    }
    proof {
        assert(height * width == width * height) by (nonlinear_arith);
        assert(bytes@ =~= raster(noise@));
    }
    bytes
}

/// `ImageBuffer::from_raw` for one byte of luminance per pixel. It makes an
/// image if and only if `bytes` holds at least `width * height` bytes, and
/// the image then shows the first that many, row after row.
#[verifier::external_body]
fn image_from_raw(width: u32, height: u32, bytes: Vec<u8>) -> (image: Option<Picture>)
    ensures
        image is Some <==> width * height <= bytes.len(),
        image matches Some(made) ==> image_rows(made) == rows_of(
            width as int,
            height as int,
            bytes@,
        ),
{
    match ImageBuffer::from_raw(width, height, bytes) {
        Some(buffer) => Some(Picture { buffer }),
        None => None,
    }
}

/// Renders the field as a grayscale image of the same extent: the pixel in
/// column `x` of row `y` shows the quantized sample of cell `(x, y)`.
pub fn to_image(noise: &Noise) -> (image: Picture)
    ensures
        image_rows(image) == rows_of(noise@.width, noise@.height, raster(noise@)),
{
    let bytes: Vec<u8> = render(noise);
    let made = image_from_raw(noise.width() as u32, noise.height() as u32, bytes);
    made.unwrap()
}

/// The pixel in column `x` of row `y` of the raster shows cell `(x, y)`.
pub proof fn lemma_raster_pixel(f: Field, x: int, y: int)
    requires
        f.wf(),
        f.contains(x, y),
    ensures
        0 <= y * f.width + x < raster(f).len(),
        raster(f)[y * f.width + x] == brightness_of(f.at(x, y)),
        rows_of(f.width, f.height, raster(f))[y][x] == brightness_of(f.at(x, y)),
{
    lemma_index_in_range(f.height, f.width, y, x);
    lemma_index_in_range(f.height, f.width, y, f.width - 1);
    lemma_index_split(f.width, y, x);
    assert(f.height * f.width == f.width * f.height) by (nonlinear_arith);
    let row = raster(f).subrange(y * f.width, y * f.width + f.width);
    assert(rows_of(f.width, f.height, raster(f))[y] == row);
    assert(row[x] == raster(f)[y * f.width + x]);
}

} // verus!
