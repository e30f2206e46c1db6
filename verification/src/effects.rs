//! Post-effects that follow the harmonization: film grain, watercolour
//! noise, a vertical red-to-blue tint, scanlines with shifted copies,
//! pixelation and a saturation boost.

use vstd::prelude::*;
use crate::blend::{store_channel, stored_channel};
use crate::buffer::{bytes_of_pixels, column_of, grid_pixel, lemma_grid_pixel,
    lemma_index_in_grid, lemma_position_in_grid, lemma_row_and_column, pixels_of_bytes, row_of,
    PixelBuffer, Rgb};
use crate::color::{Hsl, Srgb};
use crate::outside::{crop_to_image, is_pixel_of, overlay_at_origin, random_in_range,
    resize_nearest, resized_nearest};

verus! {

/// Bound of the noise that the watercolour effect adds to the blurred image.
pub const WATERCOLOR_NOISE: i16 = 10;

/// `v` held to the range of a byte.
pub open spec fn clamp_byte(v: int) -> u8 {
    if v < 0 {
        0
    } else if v > 255 {
        255
    } else {
        v as u8
    }
}

/// `p` with `noise` added to each channel, each sum held to the range of a
/// byte.
pub open spec fn with_noise(p: Rgb, noise: int) -> Rgb {
    Rgb { r: clamp_byte(p.r + noise), g: clamp_byte(p.g + noise), b: clamp_byte(p.b + noise) }
}

/// Whether `after` is `before` with one noise value from `-bound` up to, but
/// not including, `bound` added to all three channels.
pub open spec fn grained(before: Rgb, after: Rgb, bound: int) -> bool {
    exists|noise: int| -bound <= noise < bound && after == #[trigger] with_noise(before, noise)
}

fn add_clamped(channel: u8, noise: i16) -> (r: u8)
    ensures
        r == clamp_byte(channel + noise),
{
    let v: i32 = channel as i32 + noise as i32;
    if v < 0 {
        0
    } else if v > 255 {
        255
    } else {
        v as u8
    }
}

/// Adds `noise` to each channel of `p` and clamps each sum to a byte.
pub fn grain_pixel(p: Rgb, noise: i16) -> (r: Rgb)
    ensures
        r == with_noise(p, noise as int),
{
    Rgb { r: add_clamped(p.r, noise), g: add_clamped(p.g, noise), b: add_clamped(p.b, noise) }
}

/// Adds film grain: each pixel gets one random noise value from
/// `-intensity` up to, but not including, `intensity`, added to all three of
/// its channels and clamped.
pub fn add_film_grain(img: &mut PixelBuffer, intensity: i16)
    requires
        old(img).wf(),
        intensity > 0,
    ensures
        final(img).wf(),
        final(img).spec_width() == old(img).spec_width(),
        final(img).spec_height() == old(img).spec_height(),
        final(img)@.len() == old(img)@.len(),
        forall|i: int|
            0 <= i < old(img)@.len() ==> grained(
                old(img)@[i],
                #[trigger] final(img)@[i],
                intensity as int,
            ),
{
    let ghost before = img@;
    let n: usize = img.len();
    let mut i: usize = 0;
    while i < n
        invariant
            i <= n,
            n == before.len(),
            img@.len() == n,
            img.wf(),
            img.spec_width() == old(img).spec_width(),
            img.spec_height() == old(img).spec_height(),
            before == old(img)@,
            intensity > 0,
            forall|j: int| 0 <= j < i ==> grained(before[j], #[trigger] img@[j], intensity as int),
            forall|j: int| i <= j < n ==> img@[j] == before[j],
        decreases n - i,
    {
        let noise: i16 = random_in_range(-intensity, intensity);
        let p = img.get(i);
        let q = grain_pixel(p, noise);
        assert(q == with_noise(before[i as int], noise as int));
        img.set(i, q);
        i += 1;
    }
}

/// The watercolour effect: replaces each pixel of `img` by the pixel of
/// `blurred` at the same position with one random noise value from
/// `-WATERCOLOR_NOISE` up to, but not including, `WATERCOLOR_NOISE` added to
/// its channels. `blurred` is the blurred form of `img`, of the same size.
pub fn apply_watercolor_effect(img: &mut PixelBuffer, blurred: &PixelBuffer)
    requires
        old(img).wf(),
        blurred.wf(),
        blurred.spec_width() == old(img).spec_width(),
        blurred.spec_height() == old(img).spec_height(),
    ensures
        final(img).wf(),
        final(img).spec_width() == old(img).spec_width(),
        final(img).spec_height() == old(img).spec_height(),
        final(img)@.len() == old(img)@.len(),
        forall|i: int|
            0 <= i < old(img)@.len() ==> grained(
                blurred@[i],
                #[trigger] final(img)@[i],
                WATERCOLOR_NOISE as int,
            ),
{
    let n: usize = img.len();
    let mut i: usize = 0;
    while i < n
        invariant
            i <= n,
            img@.len() == n,
            blurred@.len() == n,
            n == old(img)@.len(),
            img.wf(),
            img.spec_width() == old(img).spec_width(),
            img.spec_height() == old(img).spec_height(),
            forall|j: int|
                0 <= j < i ==> grained(blurred@[j], #[trigger] img@[j], WATERCOLOR_NOISE as int),
        decreases n - i,
    {
        let noise: i16 = random_in_range(-WATERCOLOR_NOISE, WATERCOLOR_NOISE);
        let q = grain_pixel(blurred.get(i), noise);
        assert(q == with_noise(blurred@[i as int], noise as int));
        img.set(i, q);
        i += 1;
    }
}

/// The sum of a channel and an amount, held at 255.
pub open spec fn saturating_sum(channel: u8, amount: int) -> u8 {
    if channel + amount > 255 {
        255
    } else {
        (channel + amount) as u8
    }
}

/// `p` tinted by the red and the blue amount of its row: half of each is
/// added, green is untouched.
pub open spec fn tinted(p: Rgb, red: u8, blue: u8) -> Rgb {
    Rgb {
        r: saturating_sum(p.r, (red / 2) as int),
        g: p.g,
        b: saturating_sum(p.b, (blue / 2) as int),
    }
}

/// Tints one pixel with half the red and half the blue amount of its row.
pub fn tint_pixel(p: Rgb, red: u8, blue: u8) -> (r: Rgb)
    ensures
        r == tinted(p, red, blue),
{
    Rgb { r: p.r.saturating_add(red / 2), g: p.g, b: p.b.saturating_add(blue / 2) }
}

/// Lays a vertical gradient over the image. `amounts` holds, for each row
/// from the top, the red and the blue amount of the gradient there; each
/// pixel is tinted by half the amounts of its row.
pub fn apply_gradient_overlay(img: &mut PixelBuffer, amounts: &Vec<(u8, u8)>)
    requires
        old(img).wf(),
        amounts.len() == old(img).spec_height(),
    ensures
        final(img).wf(),
        final(img).spec_width() == old(img).spec_width(),
        final(img).spec_height() == old(img).spec_height(),
        final(img)@.len() == old(img)@.len(),
        forall|x: int, y: int|
            0 <= x < old(img).spec_width() && 0 <= y < old(img).spec_height()
                ==> #[trigger] final(img).at(x, y) == tinted(
                old(img).at(x, y),
                amounts[y].0,
                amounts[y].1,
            ),
{
    let ghost before = img@;
    let width: u32 = img.width();
    let height: u32 = img.height();
    let n: usize = img.len();
    let mut i: usize = 0;
    let mut y: u32 = 0;
    while y < height
        invariant
            y <= height,
            i == y * width,
            i <= n,
            n == width * height,
            img@.len() == n,
            before == old(img)@,
            before.len() == n,
            amounts.len() == height,
            img.wf(),
            img.spec_width() == width,
            img.spec_height() == height,
            old(img).spec_width() == width,
            old(img).spec_height() == height,
            forall|j: int|
                0 <= j < i ==> #[trigger] img@[j] == tinted(
                    before[j],
                    amounts[row_of(j, width as int)].0,
                    amounts[row_of(j, width as int)].1,
                ),
            forall|j: int| i <= j < n ==> img@[j] == before[j],
        decreases height - y,
    {
        let row = amounts[y as usize];
        let mut x: u32 = 0;
        while x < width
            invariant
                x <= width,
                y < height,
                i == y * width + x,
                i <= n,
                n == width * height,
                img@.len() == n,
                before.len() == n,
                amounts.len() == height,
                img.wf(),
                img.spec_width() == width,
                img.spec_height() == height,
                row == amounts[y as int],
                forall|j: int|
                    0 <= j < i ==> #[trigger] img@[j] == tinted(
                        before[j],
                        amounts[row_of(j, width as int)].0,
                        amounts[row_of(j, width as int)].1,
                    ),
                forall|j: int| i <= j < n ==> img@[j] == before[j],
            decreases width - x,
        {
            proof {
                lemma_index_in_grid(x as int, y as int, width as int, height as int);
                lemma_row_and_column(x as int, y as int, width as int);
            }
            let q = tint_pixel(img.get(i), row.0, row.1);
            img.set(i, q);
            i += 1;
            x += 1;
            assert(i <= n) by (nonlinear_arith)
                requires
                    i == y * width + x,
                    x <= width,
                    y < height,
                    n == width * height,
            ;
        }
        assert((y + 1) * width == y * width + width) by (nonlinear_arith);
        y += 1;
    }
    assert(height * width == width * height) by (nonlinear_arith);
    assert forall|x: int, y: int| 0 <= x < width && 0 <= y < height implies #[trigger] img.at(x, y)
        == tinted(old(img).at(x, y), amounts[y].0, amounts[y].1) by {
        lemma_index_in_grid(x, y, width as int, height as int);
        lemma_row_and_column(x, y, width as int);
    }
}

/// How much the scanlines take from each channel of an even row.
pub const SCANLINE_DIM: u8 = 20;

/// `p` with `SCANLINE_DIM` taken from each channel, held at 0.
pub open spec fn darkened(p: Rgb) -> Rgb {
    Rgb {
        r: if p.r >= SCANLINE_DIM { (p.r - SCANLINE_DIM) as u8 } else { 0 },
        g: if p.g >= SCANLINE_DIM { (p.g - SCANLINE_DIM) as u8 } else { 0 },
        b: if p.b >= SCANLINE_DIM { (p.b - SCANLINE_DIM) as u8 } else { 0 },
    }
}

/// `p` as it shows in row `y` under the scanlines: darkened in even rows.
pub open spec fn scanline(p: Rgb, y: int) -> Rgb {
    if y % 2 == 0 {
        darkened(p)
    } else {
        p
    }
}

/// The pixel that the shifted copies leave in column `x` of row `y`: the
/// pixel one row below; in the last row, the pixel two columns to the
/// right; in the last two columns of the last row, the pixel itself.
pub open spec fn shifted_pixel(img: PixelBuffer, x: int, y: int) -> Rgb {
    if y + 1 < img.spec_height() {
        img.at(x, y + 1)
    } else if x + 2 < img.spec_width() {
        img.at(x + 2, y)
    } else {
        img.at(x, y)
    }
}

/// What the two overlays leave at column `x` of row `y`, told from what the
/// crops and the overlays do to the bytes: `left` is `raw0` without its
/// first two columns, `up` is `raw0` without its first row, `raw1` is `raw0`
/// under `left`, and `raw2` is `raw1` under `up`.
proof fn lemma_overlaid_pixel(
    raw0: Seq<u8>,
    left: Seq<u8>,
    up: Seq<u8>,
    raw1: Seq<u8>,
    raw2: Seq<u8>,
    width: int,
    height: int,
    x: int,
    y: int,
)
    requires
        0 <= x < width,
        0 <= y < height,
        forall|i: int, j: int|
            0 <= i < width - 2 && 0 <= j < height ==> #[trigger] grid_pixel(left, width - 2, i, j)
                == grid_pixel(raw0, width, i + 2, j),
        forall|i: int, j: int|
            0 <= i < width && 0 <= j < height - 1 ==> #[trigger] grid_pixel(up, width, i, j)
                == grid_pixel(raw0, width, i, j + 1),
        forall|i: int, j: int|
            0 <= i < width && 0 <= j < height ==> #[trigger] grid_pixel(raw1, width, i, j) == if i
                < width - 2 {
                grid_pixel(left, width - 2, i, j)
            } else {
                grid_pixel(raw0, width, i, j)
            },
        forall|i: int, j: int|
            0 <= i < width && 0 <= j < height ==> #[trigger] grid_pixel(raw2, width, i, j) == if j
                < height - 1 {
                grid_pixel(up, width, i, j)
            } else {
                grid_pixel(raw1, width, i, j)
            },
    ensures
        grid_pixel(raw2, width, x, y) == if y + 1 < height {
            grid_pixel(raw0, width, x, y + 1)
        } else if x + 2 < width {
            grid_pixel(raw0, width, x + 2, y)
        } else {
            grid_pixel(raw0, width, x, y)
        },
{
    if y + 1 < height {
        assert(grid_pixel(raw2, width, x, y) == grid_pixel(up, width, x, y));
    } else {
        assert(grid_pixel(raw2, width, x, y) == grid_pixel(raw1, width, x, y));
        if x + 2 < width {
            assert(grid_pixel(raw1, width, x, y) == grid_pixel(left, width - 2, x, y));
        }
    }
}

/// Lays two shifted copies of the image over it: first one moved two
/// columns to the left, then one moved one row up. The image must be at
/// least two columns wide and one row high.
pub fn overlay_shifted_copies(img: &mut PixelBuffer)
    requires
        old(img).wf(),
        old(img).spec_width() >= 2,
        old(img).spec_height() >= 1,
    ensures
        final(img).wf(),
        final(img).spec_width() == old(img).spec_width(),
        final(img).spec_height() == old(img).spec_height(),
        final(img)@.len() == old(img)@.len(),
        forall|x: int, y: int|
            0 <= x < old(img).spec_width() && 0 <= y < old(img).spec_height()
                ==> #[trigger] final(img).at(x, y) == shifted_pixel(*old(img), x, y),
{
    let width: u32 = img.width();
    let height: u32 = img.height();
    let left_width: u32 = width - 2;
    let up_height: u32 = height - 1;
    let mut raw = img.to_raw();
    let ghost raw0 = raw@;
    let left = crop_to_image(&raw, width, height, 2, 0, left_width, height);
    let up = crop_to_image(&raw, width, height, 0, 1, width, up_height);
    overlay_at_origin(&mut raw, width, height, &left, left_width, height);
    let ghost raw1 = raw@;
    overlay_at_origin(&mut raw, width, height, &up, width, up_height);
    let ghost raw2 = raw@;
    let shifted = PixelBuffer::from_raw(width, height, &raw).unwrap();
    assert forall|x: int, y: int| 0 <= x < width && 0 <= y < height implies #[trigger] shifted.at(
        x,
        y,
    ) == shifted_pixel(*old(img), x, y) by {
        lemma_overlaid_pixel(raw0, left@, up@, raw1, raw2, width as int, height as int, x, y);
        lemma_grid_pixel(raw2, shifted@, width as int, height as int, x, y);
        lemma_grid_pixel(raw0, old(img)@, width as int, height as int, x, y);
        if y + 1 < height {
            lemma_grid_pixel(raw0, old(img)@, width as int, height as int, x, y + 1);
        } else if x + 2 < width {
            lemma_grid_pixel(raw0, old(img)@, width as int, height as int, x + 2, y);
        }
    }
    *img = shifted;
}

/// Takes `SCANLINE_DIM` from one channel, stopping at 0.
fn dim_channel(c: u8) -> (r: u8)
    ensures
        r == if c >= SCANLINE_DIM { (c - SCANLINE_DIM) as u8 } else { 0u8 },
{
    if c >= SCANLINE_DIM {
        c - SCANLINE_DIM
    } else {
        0
    }
}

/// Darkens every pixel of the even rows by `SCANLINE_DIM` per channel.
pub fn darken_even_rows(img: &mut PixelBuffer)
    requires
        old(img).wf(),
    ensures
        final(img).wf(),
        final(img).spec_width() == old(img).spec_width(),
        final(img).spec_height() == old(img).spec_height(),
        final(img)@.len() == old(img)@.len(),
        forall|x: int, y: int|
            0 <= x < old(img).spec_width() && 0 <= y < old(img).spec_height()
                ==> #[trigger] final(img).at(x, y) == scanline(old(img).at(x, y), y),
{
    let ghost before = img@;
    let width: u32 = img.width();
    let height: u32 = img.height();
    let n: usize = img.len();
    let mut i: usize = 0;
    let mut y: u32 = 0;
    while y < height
        invariant
            y <= height,
            i == y * width,
            i <= n,
            n == width * height,
            img@.len() == n,
            before == old(img)@,
            before.len() == n,
            img.wf(),
            img.spec_width() == width,
            img.spec_height() == height,
            old(img).spec_width() == width,
            old(img).spec_height() == height,
            forall|j: int|
                0 <= j < i ==> #[trigger] img@[j] == scanline(before[j], row_of(j, width as int)),
            forall|j: int| i <= j < n ==> img@[j] == before[j],
        decreases height - y,
    {
        let even: bool = y % 2 == 0;
        let mut x: u32 = 0;
        while x < width
            invariant
                x <= width,
                y < height,
                even == (y % 2 == 0),
                i == y * width + x,
                i <= n,
                n == width * height,
                img@.len() == n,
                before.len() == n,
                img.wf(),
                img.spec_width() == width,
                img.spec_height() == height,
                forall|j: int|
                    0 <= j < i ==> #[trigger] img@[j] == scanline(
                        before[j],
                        row_of(j, width as int),
                    ),
                forall|j: int| i <= j < n ==> img@[j] == before[j],
            decreases width - x,
        {
            proof {
                lemma_index_in_grid(x as int, y as int, width as int, height as int);
                lemma_row_and_column(x as int, y as int, width as int);
            }
            if even {
                let p = img.get(i);
                img.set(i, Rgb { r: dim_channel(p.r), g: dim_channel(p.g), b: dim_channel(p.b) });
            }
            i += 1;
            x += 1;
            assert(i <= n) by (nonlinear_arith)
                requires
                    i == y * width + x,
                    x <= width,
                    y < height,
                    n == width * height,
            ;
        }
        assert((y + 1) * width == y * width + width) by (nonlinear_arith);
        y += 1;
    }
    assert(height * width == width * height) by (nonlinear_arith);
    assert forall|x: int, y: int| 0 <= x < width && 0 <= y < height implies #[trigger] img.at(x, y)
        == scanline(old(img).at(x, y), y) by {
        lemma_index_in_grid(x, y, width as int, height as int);
        lemma_row_and_column(x, y, width as int);
    }
}

/// The pixel that the tape effect leaves in column `x` of row `y`.
pub open spec fn vhs_pixel(img: PixelBuffer, x: int, y: int) -> Rgb {
    scanline(shifted_pixel(img, x, y), y)
}

/// The tape effect: two shifted copies of the image are laid over it, then
/// the even rows are darkened into scanlines. The image must be at least
/// two columns wide and one row high.
pub fn add_vhs_effect(img: &mut PixelBuffer)
    requires
        old(img).wf(),
        old(img).spec_width() >= 2,
        old(img).spec_height() >= 1,
    ensures
        final(img).wf(),
        final(img).spec_width() == old(img).spec_width(),
        final(img).spec_height() == old(img).spec_height(),
        final(img)@.len() == old(img)@.len(),
        forall|x: int, y: int|
            0 <= x < old(img).spec_width() && 0 <= y < old(img).spec_height()
                ==> #[trigger] final(img).at(x, y) == vhs_pixel(*old(img), x, y),
{
    overlay_shifted_copies(img);
    let ghost shifted = *img;
    darken_even_rows(img);
    assert forall|x: int, y: int|
        0 <= x < old(img).spec_width() && 0 <= y < old(img).spec_height() implies #[trigger] img.at(
        x,
        y,
    ) == vhs_pixel(*old(img), x, y) by {
        assert(shifted.at(x, y) == shifted_pixel(*old(img), x, y));
    }
}

/// The bytes of an image after pixelation: resized down by `block_size` in
/// each direction, then back up to its size, both times taking the nearest
/// pixel.
pub open spec fn pixelated(raw: Seq<u8>, width: u32, height: u32, block_size: u32) -> Seq<u8> {
    resized_nearest(
        resized_nearest(
            raw,
            width,
            height,
            (width / block_size) as u32,
            (height / block_size) as u32,
        ),
        (width / block_size) as u32,
        (height / block_size) as u32,
        width,
        height,
    )
}

/// Where every pixel of `after` is a pixel of `before` and `before` is of
/// one colour throughout, `after` is of that colour too: pixelation with
/// blocks that fit the image keeps a uniform image uniform.
pub proof fn lemma_uniform_stays_uniform(before: Seq<Rgb>, after: Seq<Rgb>, colour: Rgb)
    requires
        forall|i: int| 0 <= i < after.len() ==> before.contains(#[trigger] after[i]),
        forall|j: int| 0 <= j < before.len() ==> #[trigger] before[j] == colour,
    ensures
        forall|i: int| 0 <= i < after.len() ==> #[trigger] after[i] == colour,
{
    assert forall|i: int| 0 <= i < after.len() implies #[trigger] after[i] == colour by {
        assert(before.contains(after[i]));
    }
}

/// Pixelates the image into blocks of `block_size` pixels: it is resized
/// down by that factor and back up. The size of the image does not change.
/// A block size of 1 leaves the image as it is; a block size larger than
/// the width or the height leaves no pixel to sample and gives a black
/// image. Otherwise every pixel of the result is a pixel of the image as it
/// was: no new colour appears.
pub fn pixelate(img: &mut PixelBuffer, block_size: u32)
    requires
        old(img).wf(),
        block_size > 0,
        16 * (old(img).spec_width() * old(img).spec_height()) <= isize::MAX,
    ensures
        final(img).wf(),
        final(img).spec_width() == old(img).spec_width(),
        final(img).spec_height() == old(img).spec_height(),
        final(img)@.len() == old(img)@.len(),
        final(img)@ == pixels_of_bytes(
            pixelated(
                bytes_of_pixels(old(img)@),
                old(img).spec_width() as u32,
                old(img).spec_height() as u32,
                block_size,
            ),
        ),
        block_size == 1 ==> final(img)@ == old(img)@,
        block_size > old(img).spec_width() || block_size > old(img).spec_height() ==> forall|
            i: int,
        |
            0 <= i < final(img)@.len() ==> #[trigger] final(img)@[i] == (Rgb { r: 0, g: 0, b: 0 }),
        block_size <= old(img).spec_width() && block_size <= old(img).spec_height() ==> forall|
            i: int,
        |
            0 <= i < final(img)@.len() ==> old(img)@.contains(#[trigger] final(img)@[i]),
{
    let width: u32 = img.width();
    let height: u32 = img.height();
    let small_width: u32 = width / block_size;
    let small_height: u32 = height / block_size;
    proof {
        assert(small_width * small_height <= width * height && width * small_height <= width
            * height && small_width * height <= width * height) by (nonlinear_arith)
            requires
                0 <= small_width <= width,
                0 <= small_height <= height,
        ;
    }
    let raw = img.to_raw();
    let small = resize_nearest(&raw, width, height, small_width, small_height);
    let large = resize_nearest(&small, small_width, small_height, width, height);
    let resized = PixelBuffer::from_raw(width, height, &large).unwrap();
    proof {
        if block_size > width || block_size > height {
            assert(small_width == 0 || small_height == 0) by (nonlinear_arith)
                requires
                    block_size > width || block_size > height,
                    small_width == width / block_size,
                    small_height == height / block_size,
                    block_size > 0,
                    width >= 0,
                    height >= 0,
            ;
            assert forall|i: int| 0 <= i < resized@.len() implies #[trigger] resized@[i] == (Rgb {
                r: 0,
                g: 0,
                b: 0,
            }) by {
                assert(large[3 * i] == 0 && large[3 * i + 1] == 0 && large[3 * i + 2] == 0);
            }
        } else {
            assert(small_width > 0 && small_height > 0) by (nonlinear_arith)
                requires
                    0 < block_size <= width,
                    block_size <= height,
                    small_width == width / block_size,
                    small_height == height / block_size,
            ;
            assert forall|i: int| 0 <= i < resized@.len() implies old(img)@.contains(
                #[trigger] resized@[i],
            ) by {
                let w = width as int;
                let h = height as int;
                lemma_position_in_grid(i, w, h);
                let x = column_of(i, w);
                let y = row_of(i, w);
                lemma_grid_pixel(large@, resized@, w, h, x, y);
                let p = grid_pixel(large@, w, x, y);
                assert(is_pixel_of(p, small@, small_width as int, small_height as int));
                let (sx, sy) = choose|sx: int, sy: int|
                    0 <= sx < small_width && 0 <= sy < small_height && p == #[trigger] grid_pixel(
                        small@,
                        small_width as int,
                        sx,
                        sy,
                    );
                assert(is_pixel_of(grid_pixel(small@, small_width as int, sx, sy), raw@, w, h));
                let (rx, ry) = choose|rx: int, ry: int|
                    0 <= rx < w && 0 <= ry < h && p == #[trigger] grid_pixel(raw@, w, rx, ry);
                lemma_grid_pixel(raw@, old(img)@, w, h, rx, ry);
                assert(old(img)@[ry * w + rx] == p);
            }
        }
    }
    *img = resized;
}

/// `saturation` times `factor` percent, held at the largest value that the
/// field can carry.
pub open spec fn boosted_saturation(saturation: int, factor: int) -> int {
    if (saturation * factor) / 100 > u32::MAX {
        u32::MAX as int
    } else {
        (saturation * factor) / 100
    }
}

/// `c` with its saturation multiplied by `factor` percent. Hue and lightness
/// stay.
pub open spec fn saturated(c: Hsl, factor: int) -> Hsl {
    Hsl {
        hue: c.hue,
        saturation: boosted_saturation(c.saturation as int, factor) as u32,
        lightness: c.lightness,
    }
}

/// The pixel that is stored for the sRGB levels `levels` as they are: each
/// channel clamped and scaled to a byte.
pub open spec fn plain_pixel(levels: Srgb) -> Rgb {
    Rgb {
        r: stored_channel(levels.r as int, 100) as u8,
        g: stored_channel(levels.g as int, 100) as u8,
        b: stored_channel(levels.b as int, 100) as u8,
    }
}

/// Whether `out` is the pixel `px` with its saturation boosted: `px`
/// converted to HSL by `to_hsl`, its saturation multiplied by `factor`
/// percent, converted back by `to_rgb`, and stored.
pub open spec fn saturation_boosted<H, R>(
    to_hsl: H,
    to_rgb: R,
    factor: int,
    px: Rgb,
    out: Rgb,
) -> bool where H: Fn(Rgb) -> Hsl, R: Fn(Hsl) -> Srgb {
    exists|hsl: Hsl, levels: Srgb|
        {
            &&& #[trigger] call_ensures(to_hsl, (px,), hsl)
            &&& #[trigger] call_ensures(to_rgb, (saturated(hsl, factor),), levels)
            &&& out == plain_pixel(levels)
        }
}

/// Multiplies the saturation of `c` by `factor` percent.
pub fn scale_saturation(c: Hsl, factor: u32) -> (r: Hsl)
    ensures
        r == saturated(c, factor as int),
{
    assert(c.saturation * factor <= 0xffff_ffff * 0xffff_ffff) by (nonlinear_arith)
        requires
            c.saturation <= 0xffff_ffff,
            factor <= 0xffff_ffff,
    ;
    let scaled: u64 = c.saturation as u64 * factor as u64 / 100;
    let saturation: u32 = if scaled > u32::MAX as u64 {
        u32::MAX
    } else {
        scaled as u32
    };
    Hsl { hue: c.hue, saturation, lightness: c.lightness }
}

/// Clamps each channel of `levels` and stores it.
pub fn store_plain_pixel(levels: Srgb) -> (p: Rgb)
    ensures
        p == plain_pixel(levels),
{
    Rgb {
        r: store_channel(levels.r, 100),
        g: store_channel(levels.g, 100),
        b: store_channel(levels.b, 100),
    }
}

/// Boosts the saturation of every pixel by `factor` percent. `to_hsl` and
/// `to_rgb` convert between stored pixels and HSL.
pub fn boost_saturation<H, R>(img: &mut PixelBuffer, factor: u32, to_hsl: H, to_rgb: R) where
    H: Fn(Rgb) -> Hsl,
    R: Fn(Hsl) -> Srgb,
    requires
        old(img).wf(),
        forall|p: Rgb| call_requires(to_hsl, (p,)),
        forall|c: Hsl| call_requires(to_rgb, (c,)),
    ensures
        final(img).wf(),
        final(img).spec_width() == old(img).spec_width(),
        final(img).spec_height() == old(img).spec_height(),
        final(img)@.len() == old(img)@.len(),
        forall|i: int|
            0 <= i < old(img)@.len() ==> saturation_boosted(
                to_hsl,
                to_rgb,
                factor as int,
                old(img)@[i],
                #[trigger] final(img)@[i],
            ),
{
    let ghost before = img@;
    let n: usize = img.len();
    let mut i: usize = 0;
    while i < n
        invariant
            i <= n,
            n == before.len(),
            img@.len() == n,
            img.wf(),
            img.spec_width() == old(img).spec_width(),
            img.spec_height() == old(img).spec_height(),
            before == old(img)@,
            forall|p: Rgb| call_requires(to_hsl, (p,)),
            forall|c: Hsl| call_requires(to_rgb, (c,)),
            forall|j: int|
                0 <= j < i ==> saturation_boosted(
                    to_hsl,
                    to_rgb,
                    factor as int,
                    before[j],
                    #[trigger] img@[j],
                ),
            forall|j: int| i <= j < n ==> img@[j] == before[j],
        decreases n - i,
    {
        let hsl = to_hsl(img.get(i));
        let levels = to_rgb(scale_saturation(hsl, factor));
        img.set(i, store_plain_pixel(levels));
        i += 1;
    }
}

} // verus!
