use vstd::prelude::*;
use image::RgbImage;

verus! {

/// An 8-bit RGB raster held in an `image::RgbImage`.
#[verifier::external_body]
pub struct Raster {
    img: RgbImage,
}

/// The samples of an RGB image, three per pixel, row after row.
pub uninterp spec fn image_samples(img: Raster) -> Seq<u8>;

/// The width and the height of an RGB image, in pixels.
pub uninterp spec fn image_size(img: Raster) -> (u32, u32);

/// Index of the first sample of pixel (x, y) in a row-major raster `width` pixels wide.
pub open spec fn sample_index(width: int, x: int, y: int) -> int {
    3 * (y * width + x)
}

/// The colour of pixel (x, y), as (red, green, blue).
pub open spec fn rgb_at(img: Raster, x: int, y: int) -> (u8, u8, u8) {
    let s = image_samples(img);
    let k = sample_index(image_size(img).0 as int, x, y);
    (s[k], s[k + 1], s[k + 2])
}

/// The raster holds exactly the samples of its pixels.
pub open spec fn raster_wf(img: Raster) -> bool {
    image_samples(img).len() == 3 * image_size(img).0 * image_size(img).1
}

/// Relies on image's `ImageBuffer::new`: an image of `width` x `height` pixels whose
/// `3 * width * height` samples are all zero; it panics when that count overflows usize.
#[verifier::external_body]
pub(crate) fn blank_image(width: u32, height: u32) -> (img: Raster)
    requires
        3 * width * height <= usize::MAX,
    ensures
        image_size(img) == (width, height),
        image_samples(img) == Seq::new((3 * width * height) as nat, |i: int| 0u8),
{
    Raster { img: RgbImage::new(width, height) }
}

/// Relies on image's `ImageBuffer::put_pixel`: it overwrites the three samples of pixel
/// (x, y), which start at `3 * (y * width + x)`, and panics when (x, y) is outside the image.
#[verifier::external_body]
fn put_rgb(img: &mut Raster, x: u32, y: u32, px: (u8, u8, u8))
    requires
        raster_wf(*old(img)),
        x < image_size(*old(img)).0,
        y < image_size(*old(img)).1,
    ensures
        image_size(*final(img)) == image_size(*old(img)),
        image_samples(*final(img)) == ({
            let k = sample_index(image_size(*old(img)).0 as int, x as int, y as int);
            image_samples(*old(img)).update(k, px.0).update(k + 1, px.1).update(k + 2, px.2)
        }),
{
    img.img.put_pixel(x, y, image::Rgb([px.0, px.1, px.2]))
}

proof fn lemma_distinct_pixels(w: int, x1: int, y1: int, x2: int, y2: int)
    requires
        0 <= x1 < w,
        0 <= x2 < w,
        0 <= y1,
        0 <= y2,
        x1 != x2 || y1 != y2,
    ensures
        sample_index(w, x1, y1) + 3 <= sample_index(w, x2, y2)
            || sample_index(w, x2, y2) + 3 <= sample_index(w, x1, y1),
{
    if y1 < y2 {
        assert(y1 * w + w <= y2 * w) by (nonlinear_arith)
            requires y1 < y2, 0 < w;
    } else if y2 < y1 {
        assert(y2 * w + w <= y1 * w) by (nonlinear_arith)
            requires y2 < y1, 0 < w;
    }
}

proof fn lemma_pixel_in_bounds(w: int, h: int, x: int, y: int)
    requires
        0 <= x < w,
        0 <= y < h,
    ensures
        0 <= sample_index(w, x, y),
        sample_index(w, x, y) + 3 <= 3 * w * h,
{
    assert(y * w + x < w * h) by (nonlinear_arith)
        requires 0 <= x < w, 0 <= y < h;
    assert(0 <= y * w) by (nonlinear_arith)
        requires 0 <= x < w, 0 <= y;
    assert(3 * (w * h) == 3 * w * h) by (nonlinear_arith);
}

/// Writes one pixel and leaves every other pixel of the image as it was.
pub(crate) fn set_pixel(img: &mut Raster, x: u32, y: u32, px: (u8, u8, u8))
    requires
        raster_wf(*old(img)),
        x < image_size(*old(img)).0,
        y < image_size(*old(img)).1,
    ensures
        raster_wf(*final(img)),
        image_size(*final(img)) == image_size(*old(img)),
        rgb_at(*final(img), x as int, y as int) == px,
        forall|i: int, j: int|
            0 <= i < image_size(*old(img)).0 && 0 <= j < image_size(*old(img)).1 && (i != x || j
                != y) ==> #[trigger] rgb_at(*final(img), i, j) == rgb_at(*old(img), i, j),
{
    let ghost before = *img;
    put_rgb(img, x, y, px);
    proof {
        let (w, h) = image_size(before);
        lemma_pixel_in_bounds(w as int, h as int, x as int, y as int);
        assert forall|i: int, j: int|
            0 <= i < w && 0 <= j < h && (i != x || j != y) implies #[trigger] rgb_at(*img, i, j)
            == rgb_at(before, i, j) by {
            lemma_distinct_pixels(w as int, i, j, x as int, y as int);
            lemma_pixel_in_bounds(w as int, h as int, i, j);
        }
    }
}

/// Relies on image's `ImageBuffer::width`: the width the image was made with.
#[verifier::external_body]
fn raster_width(img: &Raster) -> (r: u32)
    ensures
        r == image_size(*img).0,
{
    img.img.width()
}

/// Relies on image's `ImageBuffer::height`: the height the image was made with.
#[verifier::external_body]
fn raster_height(img: &Raster) -> (r: u32)
    ensures
        r == image_size(*img).1,
{
    img.img.height()
}

/// Relies on image's `ImageBuffer::into_raw`: it hands back the samples themselves.
#[verifier::external_body]
fn raster_samples(img: Raster) -> (r: Vec<u8>)
    ensures
        r@ == image_samples(img),
{
    img.img.into_raw()
}

impl Raster {
    /// Width, height, and the samples row after row, three per pixel: red, green, blue.
    pub fn into_parts(self) -> (r: (u32, u32, Vec<u8>))
        ensures
            r.0 == image_size(self).0,
            r.1 == image_size(self).1,
            r.2@ == image_samples(self),
    {
        let w = raster_width(&self);
        let h = raster_height(&self);
        (w, h, raster_samples(self))
    }
}

} // verus!
