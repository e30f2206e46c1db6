//! Pixel grids: an RGB image and a single-channel mask, both row-major.

use vstd::prelude::*;

verus! {

/// One pixel: three 8-bit sRGB channels.
#[derive(Clone, Copy, Debug, PartialEq, Eq, Structural)]
pub struct Rgb {
    pub r: u8,
    pub g: u8,
    pub b: u8,
}

/// A `width` by `height` grid of RGB pixels, stored row by row.
#[derive(Debug)]
pub struct PixelBuffer {
    width: u32,
    height: u32,
    pixels: Vec<Rgb>,
}

/// A `width` by `height` grid of intensities from 0 to 255, stored row by
/// row.
#[derive(Debug)]
pub struct GrayBuffer {
    width: u32,
    height: u32,
    values: Vec<u8>,
}

/// The pixel made of the three bytes of `raw` that start at `3 * i`.
pub open spec fn pixel_of_bytes(raw: Seq<u8>, i: int) -> Rgb {
    Rgb { r: raw[3 * i], g: raw[3 * i + 1], b: raw[3 * i + 2] }
}

/// The pixels that `raw` holds as interleaved RGB bytes.
pub open spec fn pixels_of_bytes(raw: Seq<u8>) -> Seq<Rgb> {
    Seq::new((raw.len() / 3) as nat, |i: int| pixel_of_bytes(raw, i))
}

/// The pixel in column `x` of row `y` of an image `width` pixels wide that
/// `raw` holds as interleaved RGB bytes, row by row.
pub open spec fn grid_pixel(raw: Seq<u8>, width: int, x: int, y: int) -> Rgb {
    pixel_of_bytes(raw, y * width + x)
}

/// The channel of `p` that `c` selects: 0 red, 1 green, otherwise blue.
pub open spec fn channel_of(p: Rgb, c: int) -> u8 {
    if c == 0 {
        p.r
    } else if c == 1 {
        p.g
    } else {
        p.b
    }
}

/// `pixels` written out as interleaved RGB bytes.
pub open spec fn bytes_of_pixels(pixels: Seq<Rgb>) -> Seq<u8> {
    Seq::new(3 * pixels.len(), |k: int| channel_of(pixels[k / 3], k % 3))
}

/// The row that position `i` lies in, in a grid `width` wide.
pub open spec fn row_of(i: int, width: int) -> int {
    i / width
}

/// The column that position `i` lies in, in a grid `width` wide.
pub open spec fn column_of(i: int, width: int) -> int {
    i % width
}

/// Column `x` of row `y` lies at a position whose row is `y` and whose
/// column is `x`.
pub proof fn lemma_row_and_column(x: int, y: int, width: int)
    requires
        0 <= x < width,
        0 <= y,
    ensures
        row_of(y * width + x, width) == y,
        column_of(y * width + x, width) == x,
{
    vstd::arithmetic::div_mod::lemma_fundamental_div_mod_converse(y * width + x, width, y, x);
}

/// A position inside the grid lies in one of its rows and one of its
/// columns, and is found again from the two.
pub proof fn lemma_position_in_grid(i: int, width: int, height: int)
    requires
        0 <= i < width * height,
        0 <= height,
    ensures
        0 <= column_of(i, width) < width,
        0 <= row_of(i, width) < height,
        row_of(i, width) * width + column_of(i, width) == i,
{
    assert(width > 0) by (nonlinear_arith)
        requires
            0 <= i < width * height,
            0 <= height,
    ;
    vstd::arithmetic::div_mod::lemma_fundamental_div_mod(i, width);
    vstd::arithmetic::div_mod::lemma_mod_bound(i, width);
    let y = i / width;
    assert(0 <= y < height) by (nonlinear_arith)
        requires
            i == width * y + i % width,
            0 <= i % width < width,
            0 <= i < width * height,
    ;
    assert(width * y == y * width) by (nonlinear_arith);
}

/// A row index times the width, plus a column index, stays inside the grid.
pub proof fn lemma_index_in_grid(x: int, y: int, width: int, height: int)
    requires
        0 <= x < width,
        0 <= y < height,
    ensures
        0 <= y * width + x < width * height,
        y * width + x < (y + 1) * width,
        (y + 1) * width <= width * height,
{
    assert(0 <= y * width && (y + 1) * width == y * width + width && (y + 1) * width <= height
        * width && height * width == width * height) by (nonlinear_arith)
        requires
            0 <= x < width,
            0 <= y < height,
    ;
}

/// Where `pixels` are the pixels that `raw` holds for a grid of `width` by
/// `height`, the pixel in column `x` of row `y` is found at `y * width + x`.
pub proof fn lemma_grid_pixel(
    raw: Seq<u8>,
    pixels: Seq<Rgb>,
    width: int,
    height: int,
    x: int,
    y: int,
)
    requires
        pixels == pixels_of_bytes(raw),
        raw.len() == 3 * (width * height),
        0 <= x < width,
        0 <= y < height,
    ensures
        0 <= y * width + x < pixels.len(),
        grid_pixel(raw, width, x, y) == pixels[y * width + x],
{
    lemma_index_in_grid(x, y, width, height);
}

impl PixelBuffer {
    /// Width of the grid.
    pub closed spec fn spec_width(self) -> nat {
        self.width as nat
    }

    /// Height of the grid.
    pub closed spec fn spec_height(self) -> nat {
        self.height as nat
    }

    /// The pixels, row by row.
    pub closed spec fn view(self) -> Seq<Rgb> {
        self.pixels@
    }

    /// The pixel in column `x` of row `y`.
    pub open spec fn at(self, x: int, y: int) -> Rgb {
        self@[y * self.spec_width() + x]
    }

    /// Whether the grid holds `width * height` pixels. The constructors
    /// establish this and every method keeps it.
    pub open spec fn wf(self) -> bool {
        self@.len() == self.spec_width() * self.spec_height()
    }

    /// A buffer of the given size with every pixel set to `fill`, or `None`
    /// where `width * height` does not fit the address space.
    pub fn new(width: u32, height: u32, fill: Rgb) -> (r: Option<PixelBuffer>)
        ensures
            r is Some <==> width * height <= usize::MAX,
            r matches Some(buf) ==> {
                &&& buf.wf()
                &&& buf.spec_width() == width
                &&& buf.spec_height() == height
                &&& forall|i: int| 0 <= i < buf@.len() ==> buf@[i] == fill
            },
    {
        assert(width * height <= 0xffff_ffff * 0xffff_ffff) by (nonlinear_arith)
            requires
                width <= 0xffff_ffff,
                height <= 0xffff_ffff,
        ;
        let total: u64 = width as u64 * height as u64;
        if total > usize::MAX as u64 {
            return None;
        }
        let n: usize = total as usize;
        let mut pixels: Vec<Rgb> = Vec::new();
        let mut i: usize = 0;
        while i < n
            invariant
                i <= n,
                pixels.len() == i,
                forall|j: int| 0 <= j < i ==> pixels[j] == fill,
            decreases n - i,
        {
            pixels.push(fill);
            i += 1;
        }
        Some(PixelBuffer { width, height, pixels })
    }

    /// Builds a buffer from interleaved RGB bytes, row by row. `None` unless
    /// `raw` holds exactly three bytes for each of the `width * height`
    /// pixels.
    pub fn from_raw(width: u32, height: u32, raw: &Vec<u8>) -> (r: Option<PixelBuffer>)
        ensures
            r is Some <==> raw.len() == 3 * (width * height),
            r matches Some(buf) ==> {
                &&& buf.wf()
                &&& buf.spec_width() == width
                &&& buf.spec_height() == height
                &&& buf@ == pixels_of_bytes(raw@)
            },
    {
        assert(width * height <= 0xffff_ffff * 0xffff_ffff) by (nonlinear_arith)
            requires
                width <= 0xffff_ffff,
                height <= 0xffff_ffff,
        ;
        let total: u128 = 3 * (width as u128 * height as u128);
        if raw.len() as u128 != total {
            return None;
        }
        let n: usize = raw.len() / 3;
        let mut pixels: Vec<Rgb> = Vec::new();
        let mut i: usize = 0;
        while i < n
            invariant
                i <= n,
                raw.len() == 3 * n,
                pixels.len() == i,
                forall|j: int| 0 <= j < i ==> pixels[j] == pixel_of_bytes(raw@, j),
            decreases n - i,
        {
            pixels.push(Rgb { r: raw[3 * i], g: raw[3 * i + 1], b: raw[3 * i + 2] });
            i += 1;
        }
        assert(pixels@ =~= pixels_of_bytes(raw@));
        Some(PixelBuffer { width, height, pixels })
    }

    /// The pixels as interleaved RGB bytes, row by row.
    pub fn to_raw(&self) -> (raw: Vec<u8>)
        ensures
            raw@ == bytes_of_pixels(self@),
            raw.len() == 3 * self@.len(),
            pixels_of_bytes(raw@) == self@,
    {
        let mut raw: Vec<u8> = Vec::new();
        let mut i: usize = 0;
        while i < self.pixels.len()
            invariant
                i <= self.pixels.len(),
                raw.len() == 3 * i,
                forall|k: int| 0 <= k < 3 * i ==> raw[k] == channel_of(self.pixels[k / 3], k % 3),
            decreases self.pixels.len() - i,
        {
            let p = self.pixels[i];
            raw.push(p.r);
            raw.push(p.g);
            raw.push(p.b);
            i += 1;
        }
        assert(raw@ =~= bytes_of_pixels(self@));
        assert(pixels_of_bytes(raw@) =~= self@);
        raw
    }

    /// Width of the grid.
    pub fn width(&self) -> (w: u32)
        ensures
            w == self.spec_width(),
    {
        self.width
    }

    /// Height of the grid.
    pub fn height(&self) -> (h: u32)
        ensures
            h == self.spec_height(),
    {
        self.height
    }

    /// Number of pixels.
    pub fn len(&self) -> (n: usize)
        ensures
            n == self@.len(),
    {
        self.pixels.len()
    }

    /// The pixel at position `i`, counted row by row.
    pub fn get(&self, i: usize) -> (p: Rgb)
        requires
            i < self@.len(),
        ensures
            p == self@[i as int],
    {
        self.pixels[i]
    }

    /// Replaces the pixel at position `i`, counted row by row.
    pub fn set(&mut self, i: usize, p: Rgb)
        requires
            i < old(self)@.len(),
        ensures
            final(self)@ == old(self)@.update(i as int, p),
            final(self).spec_width() == old(self).spec_width(),
            final(self).spec_height() == old(self).spec_height(),
            final(self).wf() == old(self).wf(),
    {
        self.pixels.set(i, p);
    }

    /// Position of column `x` of row `y`, counted row by row.
    pub fn index_of(&self, x: u32, y: u32) -> (i: usize)
        requires
            self.wf(),
            x < self.spec_width(),
            y < self.spec_height(),
        ensures
            i == y * self.spec_width() + x,
            i < self@.len(),
    {
        proof {
            lemma_index_in_grid(x as int, y as int, self.width as int, self.height as int);
            assert(self.pixels.len() <= usize::MAX);
        }
        y as usize * self.width as usize + x as usize
    }

    /// The pixel in column `x` of row `y`.
    pub fn get_pixel(&self, x: u32, y: u32) -> (p: Rgb)
        requires
            self.wf(),
            x < self.spec_width(),
            y < self.spec_height(),
        ensures
            p == self.at(x as int, y as int),
    {
        let i: usize = self.index_of(x, y);
        self.pixels[i]
    }

    /// Replaces the pixel in column `x` of row `y`.
    pub fn put_pixel(&mut self, x: u32, y: u32, p: Rgb)
        requires
            old(self).wf(),
            x < old(self).spec_width(),
            y < old(self).spec_height(),
        ensures
            final(self)@ == old(self)@.update(y * old(self).spec_width() + x, p),
            final(self).spec_width() == old(self).spec_width(),
            final(self).spec_height() == old(self).spec_height(),
            final(self).wf(),
    {
        let i: usize = self.index_of(x, y);
        self.pixels.set(i, p);
    }
}

impl GrayBuffer {
    /// Width of the grid.
    pub closed spec fn spec_width(self) -> nat {
        self.width as nat
    }

    /// Height of the grid.
    pub closed spec fn spec_height(self) -> nat {
        self.height as nat
    }

    /// The intensities, row by row.
    pub closed spec fn view(self) -> Seq<u8> {
        self.values@
    }

    /// The intensity in column `x` of row `y`.
    pub open spec fn at(self, x: int, y: int) -> u8 {
        self@[y * self.spec_width() + x]
    }

    /// Whether the grid holds `width * height` intensities. The constructor
    /// establishes this.
    pub open spec fn wf(self) -> bool {
        self@.len() == self.spec_width() * self.spec_height()
    }

    /// Builds a mask from its intensities, row by row. `None` unless `values`
    /// holds exactly `width * height` of them.
    pub fn from_raw(width: u32, height: u32, values: Vec<u8>) -> (r: Option<GrayBuffer>)
        ensures
            r is Some <==> values.len() == width * height,
            r matches Some(mask) ==> {
                &&& mask.wf()
                &&& mask.spec_width() == width
                &&& mask.spec_height() == height
                &&& mask@ == values@
            },
    {
        assert(width * height <= 0xffff_ffff * 0xffff_ffff) by (nonlinear_arith)
            requires
                width <= 0xffff_ffff,
                height <= 0xffff_ffff,
        ;
        let total: u64 = width as u64 * height as u64;
        if values.len() as u64 != total {
            return None;
        }
        Some(GrayBuffer { width, height, values })
    }

    /// Width of the grid.
    pub fn width(&self) -> (w: u32)
        ensures
            w == self.spec_width(),
    {
        self.width
    }

    /// Height of the grid.
    pub fn height(&self) -> (h: u32)
        ensures
            h == self.spec_height(),
    {
        self.height
    }

    /// Number of intensities.
    pub fn len(&self) -> (n: usize)
        ensures
            n == self@.len(),
    {
        self.values.len()
    }

    /// The intensity at position `i`, counted row by row.
    pub fn get(&self, i: usize) -> (v: u8)
        requires
            i < self@.len(),
        ensures
            v == self@[i as int],
    {
        self.values[i]
    }

    /// The intensity in column `x` of row `y`.
    pub fn get_pixel(&self, x: u32, y: u32) -> (v: u8)
        requires
            self.wf(),
            x < self.spec_width(),
            y < self.spec_height(),
        ensures
            v == self.at(x as int, y as int),
    {
        proof {
            lemma_index_in_grid(x as int, y as int, self.width as int, self.height as int);
            assert(self.values.len() <= usize::MAX);
        }
        self.values[y as usize * self.width as usize + x as usize]
    }
}

} // verus!
