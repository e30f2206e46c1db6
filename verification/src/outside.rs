//! The calls into the `image` and `rand` crates. Their contracts are taken
//! on trust from the crates' sources; nothing here is proved.

use vstd::prelude::*;
use rand::Rng;
use crate::buffer::{grid_pixel, Rgb};

verus! {

/// Where a crop that is asked to start at `start` really starts in an image
/// of the given extent.
pub open spec fn crop_start(start: int, extent: int) -> int {
    if start < extent {
        start
    } else {
        extent
    }
}

/// How far a crop of `size` that is asked to start at `start` really reaches
/// in an image of the given extent.
pub open spec fn crop_size(start: int, size: int, extent: int) -> int {
    if size < extent - crop_start(start, extent) {
        size
    } else {
        extent - crop_start(start, extent)
    }
}

/// Whether `p` is one of the pixels of the image of `width` by `height`
/// pixels that `raw` holds as interleaved bytes.
pub open spec fn is_pixel_of(p: Rgb, raw: Seq<u8>, width: int, height: int) -> bool {
    exists|x: int, y: int|
        0 <= x < width && 0 <= y < height && p == #[trigger] grid_pixel(raw, width, x, y)
}

/// What `image::imageops::resize` with `FilterType::Nearest` makes of an RGB
/// image of `width` by `height` pixels, given as interleaved bytes, when it
/// is resized to `new_width` by `new_height`.
pub uninterp spec fn resized_nearest(
    raw: Seq<u8>,
    width: u32,
    height: u32,
    new_width: u32,
    new_height: u32,
) -> Seq<u8>;

/// `image::imageops::crop` followed by `SubImage::to_image`, on an RGB image
/// given as interleaved bytes. The crop is clipped to the image; the result
/// holds the clipped rectangle, pixel for pixel.
#[verifier::external_body]
pub(crate) fn crop_to_image(
    raw: &Vec<u8>,
    width: u32,
    height: u32,
    x: u32,
    y: u32,
    crop_width: u32,
    crop_height: u32,
) -> (out: Vec<u8>)
    requires
        raw.len() == 3 * (width * height),
    ensures
        out.len() == 3 * (crop_size(x as int, crop_width as int, width as int) * crop_size(
            y as int,
            crop_height as int,
            height as int,
        )),
        forall|i: int, j: int|
            0 <= i < crop_size(x as int, crop_width as int, width as int) && 0 <= j < crop_size(
                y as int,
                crop_height as int,
                height as int,
            ) ==> #[trigger] grid_pixel(
                out@,
                crop_size(x as int, crop_width as int, width as int),
                i,
                j,
            ) == grid_pixel(
                raw@,
                width as int,
                i + crop_start(x as int, width as int),
                j + crop_start(y as int, height as int),
            ),
{
    let mut img = image::RgbImage::from_raw(width, height, raw.clone()).unwrap();
    image::imageops::crop(&mut img, x, y, crop_width, crop_height).to_image().into_raw()
}

/// `image::imageops::overlay` of `top` onto `bottom` at the origin, both RGB
/// images given as interleaved bytes. Where the two overlap, the pixel of
/// `top` replaces that of `bottom`; elsewhere `bottom` is unchanged.
#[verifier::external_body]
pub(crate) fn overlay_at_origin(
    bottom: &mut Vec<u8>,
    bottom_width: u32,
    bottom_height: u32,
    top: &Vec<u8>,
    top_width: u32,
    top_height: u32,
)
    requires
        old(bottom).len() == 3 * (bottom_width * bottom_height),
        top.len() == 3 * (top_width * top_height),
    ensures
        final(bottom).len() == old(bottom).len(),
        forall|x: int, y: int|
            0 <= x < bottom_width && 0 <= y < bottom_height ==> #[trigger] grid_pixel(
                final(bottom)@,
                bottom_width as int,
                x,
                y,
            ) == if x < top_width && y < top_height {
                grid_pixel(top@, top_width as int, x, y)
            } else {
                grid_pixel(old(bottom)@, bottom_width as int, x, y)
            },
{
    let taken = std::mem::take(bottom);
    let mut below = image::RgbImage::from_raw(bottom_width, bottom_height, taken).unwrap();
    let above = image::RgbImage::from_raw(top_width, top_height, top.clone()).unwrap();
    image::imageops::overlay(&mut below, &above, 0, 0);
    *bottom = below.into_raw();
}

/// `image::imageops::resize` with `FilterType::Nearest`, on an RGB image
/// given as interleaved bytes. The result has the new size. An image that
/// already has that size comes back as it is, and an image without pixels
/// gives an image of zeros. This filter samples a single pixel with weight
/// 1, so each pixel of the result is one pixel of the source, unchanged.
#[verifier::external_body]
pub(crate) fn resize_nearest(
    raw: &Vec<u8>,
    width: u32,
    height: u32,
    new_width: u32,
    new_height: u32,
) -> (out: Vec<u8>)
    requires
        raw.len() == 3 * (width * height),
        16 * (width * new_height) <= isize::MAX,
        3 * (new_width * new_height) <= isize::MAX,
    ensures
        out@ == resized_nearest(raw@, width, height, new_width, new_height),
        out.len() == 3 * (new_width * new_height),
        new_width == width && new_height == height ==> out@ == raw@,
        width == 0 || height == 0 ==> forall|k: int| 0 <= k < out.len() ==> out[k] == 0,
        width > 0 && height > 0 ==> forall|x: int, y: int|
            0 <= x < new_width && 0 <= y < new_height ==> is_pixel_of(
                #[trigger] grid_pixel(out@, new_width as int, x, y),
                raw@,
                width as int,
                height as int,
            ),
{
    let img = image::RgbImage::from_raw(width, height, raw.clone()).unwrap();
    let filter = image::imageops::FilterType::Nearest;
    image::imageops::resize(&img, new_width, new_height, filter).into_raw()
}

/// `rand::Rng::gen_range` on the thread's generator, for the half-open range
/// from `low` to `high`. Nothing is known of the value but that it lies in
/// the range.
#[verifier::external_body]
pub(crate) fn random_in_range(low: i16, high: i16) -> (r: i16)
    requires
        low < high,
    ensures
        low <= r < high,
{
    rand::thread_rng().gen_range(low..high)
}

} // verus!
