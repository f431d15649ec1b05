//! Pixel buffers in the canonical representation: 8-bit RGBA, rows from top
//! to bottom, four bytes per pixel.

use vstd::prelude::*;

verus! {

/// Mathematical model of a pixel buffer.
pub struct Raster {
    pub width: nat,
    pub height: nat,
    /// Red, green, blue and alpha of each pixel, row after row.
    pub pixels: Seq<u8>,
}

impl Raster {
    /// The buffer holds exactly four bytes for each pixel.
    pub open spec fn wf(self) -> bool {
        self.pixels.len() == 4 * self.width * self.height
    }

    /// `(x, y)` lies inside the image.
    pub open spec fn covers(self, x: int, y: int) -> bool {
        0 <= x < self.width && 0 <= y < self.height
    }

    /// Where the four bytes of the pixel at `(x, y)` start.
    pub open spec fn offset(self, x: int, y: int) -> int {
        4 * (y * self.width + x)
    }

    /// The four bytes of the pixel at `(x, y)`.
    pub open spec fn pixel(self, x: int, y: int) -> Seq<u8> {
        self.pixels.subrange(self.offset(x, y), self.offset(x, y) + 4)
    }

    /// Both images have the same width and the same height.
    pub open spec fn same_size(self, other: Raster) -> bool {
        self.width == other.width && self.height == other.height
    }

    /// This image is no wider and no taller than `other`.
    pub open spec fn fits_within(self, other: Raster) -> bool {
        self.width <= other.width && self.height <= other.height
    }
}

/// Every pixel of a well-formed image lies inside its buffer.
pub proof fn lemma_pixel_in_bounds(r: Raster, x: int, y: int)
    requires
        r.wf(),
        r.covers(x, y),
    ensures
        0 <= r.offset(x, y),
        r.offset(x, y) + 4 <= r.pixels.len(),
        r.pixel(x, y).len() == 4,
{
    let w = r.width as int;
    let h = r.height as int;
    assert(y * w + x <= (h - 1) * w + (w - 1)) by (nonlinear_arith)
        requires
            0 <= x < w,
            0 <= y < h,
    ;
    assert((h - 1) * w + (w - 1) == h * w - 1) by (nonlinear_arith);
    assert(0 <= y * w + x) by (nonlinear_arith)
        requires
            0 <= x < w,
            0 <= y < h,
    ;
    assert(4 * w * h == 4 * (h * w)) by (nonlinear_arith);
}

/// Each byte of a well-formed image belongs to exactly one pixel: byte `i` is
/// channel `i % 4` of the pixel in column `(i / 4) % width` of row
/// `(i / 4) / width`.
pub proof fn lemma_byte_position(r: Raster, i: int)
    requires
        r.wf(),
        0 <= i < r.pixels.len(),
    ensures
        r.width > 0,
        r.covers((i / 4) % (r.width as int), (i / 4) / (r.width as int)),
        r.offset((i / 4) % (r.width as int), (i / 4) / (r.width as int)) + i % 4 == i,
        r.pixel((i / 4) % (r.width as int), (i / 4) / (r.width as int))[i % 4] == r.pixels[i],
{
    let w = r.width as int;
    let h = r.height as int;
    let p = i / 4;
    assert(w > 0 && h > 0 && p < w * h) by (nonlinear_arith)
        requires
            0 <= i < 4 * w * h,
            w >= 0,
            h >= 0,
            p == i / 4,
    ;
    let x = p % w;
    let y = p / w;
    assert(p == w * y + x && 0 <= x < w) by {
        vstd::arithmetic::div_mod::lemma_fundamental_div_mod(p, w);
    }
    assert(0 <= y < h) by (nonlinear_arith)
        requires
            p == w * y + x,
            0 <= x < w,
            0 <= p < w * h,
            w > 0,
    ;
    assert(4 * (y * w + x) + i % 4 == i) by (nonlinear_arith)
        requires
            p == w * y + x,
            p == i / 4,
    ;
    lemma_pixel_in_bounds(r, x, y);
}

/// Two well-formed images of the same size that agree on every pixel are the
/// same image.
pub proof fn lemma_equal_by_pixels(a: Raster, b: Raster)
    requires
        a.wf(),
        b.wf(),
        a.same_size(b),
        forall|x: int, y: int| a.covers(x, y) ==> #[trigger] a.pixel(x, y) == b.pixel(x, y),
    ensures
        a == b,
{
    assert(a.pixels.len() == b.pixels.len());
    assert forall|i: int| 0 <= i < a.pixels.len() implies a.pixels[i] == b.pixels[i] by {
        lemma_byte_position(a, i);
        lemma_byte_position(b, i);
        let x = (i / 4) % (a.width as int);
        let y = (i / 4) / (a.width as int);
        assert(a.pixel(x, y) == b.pixel(x, y));
    }
    assert(a.pixels =~= b.pixels);
}

/// An image in the canonical representation.
pub struct Canvas {
    pub(crate) width: u32,
    pub(crate) height: u32,
    pub(crate) pixels: Vec<u8>,
}

impl View for Canvas {
    type V = Raster;

    closed spec fn view(&self) -> Raster {
        Raster { width: self.width as nat, height: self.height as nat, pixels: self.pixels@ }
    }
}

impl Canvas {
    /// Every canvas holds exactly four bytes for each of its pixels.
    #[verifier::type_invariant]
    pub open spec fn wf(&self) -> bool {
        self@.wf()
    }

    /// Takes ownership of a buffer of RGBA bytes as an image of the given
    /// size, if the buffer has exactly the length that the size asks for.
    pub fn from_raw(width: u32, height: u32, pixels: Vec<u8>) -> (made: Option<Canvas>)
        ensures
            made is Some <==> pixels@.len() == 4 * width * height,
            made matches Some(canvas) ==> canvas@ == (Raster {
                width: width as nat,
                height: height as nat,
                pixels: pixels@,
            }),
    {
        let wide: u128 = width as u128;
        let high: u128 = height as u128;
        assert(wide * high <= 0xffff_fffe_0000_0001) by (nonlinear_arith)
            requires
                0 <= wide <= 0xffff_ffff,
                0 <= high <= 0xffff_ffff,
        ;
        let area: u128 = wide * high;
        let needed: u128 = 4 * area;
        assert(needed == 4 * width * height) by (nonlinear_arith)
            requires
                needed == 4 * (wide * high),
                wide == width,
                high == height,
        ;
        if pixels.len() as u128 == needed {
            Some(Canvas { width, height, pixels })
        } else {
            None
        }
    }

    pub fn width(&self) -> (width: u32)
        ensures
            width == self@.width,
    {
        self.width
    }

    pub fn height(&self) -> (height: u32)
        ensures
            height == self@.height,
    {
        self.height
    }

    /// The bytes of the image, four per pixel, row after row.
    pub fn as_raw(&self) -> (bytes: &Vec<u8>)
        ensures
            bytes@ == self@.pixels,
            self@.wf(),
    {
        proof {
            use_type_invariant(self);
        }
        &self.pixels
    }

    /// Whether both images have the same width and the same height.
    pub fn same_size(&self, other: &Canvas) -> (same: bool)
        ensures
            same == self@.same_size(other@),
    {
        self.width == other.width && self.height == other.height
    }

    /// Red, green, blue and alpha of the pixel in column `x` of row `y`, or
    /// `None` where the image has no such pixel.
    pub fn pixel(&self, x: u32, y: u32) -> (found: Option<[u8; 4]>)
        ensures
            found is Some <==> self@.covers(x as int, y as int),
            found matches Some(rgba) ==> rgba@ == self@.pixel(x as int, y as int),
    {
        proof {
            use_type_invariant(self);
        }
        if x >= self.width || y >= self.height {
            return None;
        }
        proof {
            lemma_pixel_in_bounds(self@, x as int, y as int);
        }
        let row: usize = y as usize;
        let columns: usize = self.width as usize;
        assert(0 <= row * columns && 4 * (row * columns + x) == self@.offset(x as int, y as int))
            by (nonlinear_arith)
            requires
                row == y,
                columns == self@.width,
                self@.offset(x as int, y as int) == 4 * (y * self@.width + x),
        ;
        let total: usize = self.pixels.len();
        assert(4 * (row * columns + x) + 4 <= total);
        let start: usize = 4 * (row * columns + x as usize);
        let rgba: [u8; 4] = [
            self.pixels[start],
            self.pixels[start + 1],
            self.pixels[start + 2],
            self.pixels[start + 3],
        ];
        assert(rgba@ =~= self@.pixel(x as int, y as int));
        Some(rgba)
    }

    /// An independent copy of this image.
    pub fn duplicate(&self) -> (copy: Canvas)
        ensures
            copy@ == self@,
    {
        proof {
            use_type_invariant(self);
        }
        let pixels = self.pixels.clone();
        assert(pixels@ =~= self.pixels@);
        Canvas { width: self.width, height: self.height, pixels }
    }
}

} // verus!
