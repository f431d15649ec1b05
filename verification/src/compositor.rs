//! The layer compositor: decoding an image payload into a canvas, and laying
//! one image over another.

use vstd::prelude::*;
use vstd::arithmetic::div_mod::lemma_fundamental_div_mod_converse;
use image::ImageError;
use image::ImageBuffer;
use image::Rgba;
use image::RgbaImage;
use image::io::Reader;
use std::io::Cursor;
use crate::canvas::Canvas;
use crate::canvas::Raster;
use crate::canvas::lemma_byte_position;
use crate::canvas::lemma_equal_by_pixels;
use crate::canvas::lemma_pixel_in_bounds;
use crate::error::Fault;
use crate::error::RadarError;

verus! {

/// `image::ImageError`, the error of the `image` crate's decoders and
/// encoders. It is carried through as it comes; nothing is read from it.
#[verifier::external_type_specification]
#[verifier::external_body]
pub struct ExImageError(ImageError);

/// What `image::io::Reader` decodes a payload to once its format is guessed,
/// converted by `DynamicImage::to_rgba8`: width, height and RGBA bytes, or
/// `None` where the payload is rejected.
pub uninterp spec fn decoded_rgba8(bytes: Seq<u8>) -> Option<(u32, u32, Seq<u8>)>;

/// What `Pixel::blend` of `image::Rgba<u8>` makes of a pixel when another is
/// laid over it ("source over"). Each pixel is its red, green, blue and
/// alpha byte.
pub uninterp spec fn blended_rgba8(below: Seq<u8>, above: Seq<u8>) -> Seq<u8>;

/// Decodes a payload with `image::io::Reader`: `new` on a cursor over the
/// bytes, `with_guessed_format`, `decode`, and then `DynamicImage::to_rgba8`.
///
/// Trusted: the outcome is a function of the bytes alone, named
/// `decoded_rgba8`. Nothing is claimed of which payloads decode, nor of the
/// size of the buffer that comes back. As for every allocation, memory is
/// taken to be there.
#[verifier::external_body]
fn read_rgba8(bytes: &[u8]) -> (read: Result<(u32, u32, Vec<u8>), ImageError>)
    ensures
        match read {
            Ok((width, height, pixels)) => decoded_rgba8(bytes@) == Some(
                (width, height, pixels@),
            ),
            Err(_) => decoded_rgba8(bytes@) is None,
        },
{
    let image = Reader::new(Cursor::new(bytes)).with_guessed_format()?.decode()?.to_rgba8();
    Ok((image.width(), image.height(), image.into_raw()))
}

/// Lays `top` over `bottom` with `image::imageops::overlay`, the corner of
/// `top` at `(x, y)` of `bottom`.
///
/// Trusted, for a `top` of at least one pixel, placed at the origin and no
/// larger than `bottom`: the size of `bottom` stays; each pixel that `top`
/// covers becomes the blend of the two pixels there, named `blended_rgba8`,
/// and every other pixel stays. Of the blend: where the upper pixel's alpha
/// is 0 the lower pixel stays, and where it is 255 the upper pixel replaces
/// it.
///
/// Both images have at least one pixel, so the length of each buffer, four
/// times its width times its height, is a product that `ImageBuffer::from_raw`
/// can compute without overflow, whatever the width of `usize`.
#[verifier::external_body]
fn overlay_rgba8(bottom: &mut Canvas, top: &Canvas, x: i64, y: i64)
    requires
        x == 0,
        y == 0,
        top@.width >= 1,
        top@.height >= 1,
        top@.fits_within(old(bottom)@),
    ensures
        final(bottom)@.wf(),
        final(bottom)@.same_size(old(bottom)@),
        forall|px: int, py: int|
            old(bottom)@.covers(px, py) ==> #[trigger] final(bottom)@.pixel(px, py) == if top@.covers(
                px,
                py,
            ) {
                blended_rgba8(old(bottom)@.pixel(px, py), top@.pixel(px, py))
            } else {
                old(bottom)@.pixel(px, py)
            },
        forall|px: int, py: int|
            top@.covers(px, py) && top@.pixel(px, py)[3] == 0 ==> #[trigger] final(bottom)@.pixel(
                px,
                py,
            ) == old(bottom)@.pixel(px, py),
        forall|px: int, py: int|
            top@.covers(px, py) && top@.pixel(px, py)[3] == 255 ==> #[trigger] final(bottom)@.pixel(
                px,
                py,
            ) == top@.pixel(px, py),
{
    let taken = std::mem::take(&mut bottom.pixels);
    let mut below = RgbaImage::from_raw(bottom.width, bottom.height, taken).unwrap();
    let raw: &[u8] = top.pixels.as_slice();
    let above = ImageBuffer::<Rgba<u8>, &[u8]>::from_raw(top.width, top.height, raw).unwrap();
    image::imageops::overlay(&mut below, &above, x, y);
    bottom.pixels = below.into_raw();
}

/// The image that a payload decodes to: what the decoder gives, if the
/// payload is not empty and the buffer has four bytes for each pixel.
pub open spec fn decoded_canvas(bytes: Seq<u8>) -> Option<Raster> {
    if bytes.len() == 0 {
        None
    } else {
        match decoded_rgba8(bytes) {
            Some((width, height, pixels)) => if pixels.len() == 4 * width * height {
                Some(Raster { width: width as nat, height: height as nat, pixels })
            } else {
                None
            },
            None => None,
        }
    }
}

/// One byte of `bottom` after `top` has been laid over it at the origin.
pub open spec fn composited_byte(bottom: Raster, top: Raster, i: int) -> u8 {
    let x = (i / 4) % (bottom.width as int);
    let y = (i / 4) / (bottom.width as int);
    if top.covers(x, y) {
        blended_rgba8(bottom.pixel(x, y), top.pixel(x, y))[i % 4]
    } else {
        bottom.pixels[i]
    }
}

/// `bottom` after `top` has been laid over it, corner on corner: each pixel
/// that `top` covers is the blend of the two, every other pixel is that of
/// `bottom`.
pub open spec fn composited(bottom: Raster, top: Raster) -> Raster {
    Raster {
        width: bottom.width,
        height: bottom.height,
        pixels: Seq::new(bottom.pixels.len(), |i: int| composited_byte(bottom, top, i)),
    }
}

/// Compositing keeps the size of the lower image, and gives each of its
/// pixels byte by byte.
pub proof fn lemma_composited_pixel(bottom: Raster, top: Raster, x: int, y: int)
    requires
        bottom.wf(),
        bottom.covers(x, y),
    ensures
        composited(bottom, top).wf(),
        composited(bottom, top).same_size(bottom),
        composited(bottom, top).pixel(x, y).len() == 4,
        forall|c: int|
            0 <= c < 4 ==> #[trigger] composited(bottom, top).pixel(x, y)[c] == if top.covers(
                x,
                y,
            ) {
                blended_rgba8(bottom.pixel(x, y), top.pixel(x, y))[c]
            } else {
                bottom.pixel(x, y)[c]
            },
{
    let w = bottom.width as int;
    let whole = composited(bottom, top);
    lemma_pixel_in_bounds(bottom, x, y);
    lemma_pixel_in_bounds(whole, x, y);
    assert forall|c: int| 0 <= c < 4 implies #[trigger] whole.pixel(x, y)[c] == if top.covers(
        x,
        y,
    ) {
        blended_rgba8(bottom.pixel(x, y), top.pixel(x, y))[c]
    } else {
        bottom.pixel(x, y)[c]
    } by {
        let i = bottom.offset(x, y) + c;
        assert(i / 4 == y * w + x && i % 4 == c) by {
            lemma_fundamental_div_mod_converse(i, 4, y * w + x, c);
        }
        assert((y * w + x) % w == x && (y * w + x) / w == y) by {
            lemma_fundamental_div_mod_converse(y * w + x, w, y, x);
        }
        assert(whole.pixel(x, y)[c] == whole.pixels[i]);
        assert(whole.pixels[i] == composited_byte(bottom, top, i));
        assert(bottom.pixel(x, y)[c] == bottom.pixels[i]);
    }
}

/// Turns the outcome of the decoder into a canvas: the decoded image, or
/// `DecodeFailure` where the decoder failed or its buffer does not hold four
/// bytes for each pixel.
pub fn canvas_from_read(read: Result<(u32, u32, Vec<u8>), ImageError>) -> (made: Result<
    Canvas,
    RadarError,
>)
    ensures
        made is Ok <==> (read matches Ok((width, height, pixels)) && pixels@.len() == 4 * width
            * height),
        made matches Ok(canvas) ==> read matches Ok((width, height, pixels)) && canvas@ == (Raster {
            width: width as nat,
            height: height as nat,
            pixels: pixels@,
        }),
        made matches Err(error) ==> error == RadarError::DecodeFailure,
{
    match read {
        Ok((width, height, pixels)) => match Canvas::from_raw(width, height, pixels) {
            Some(canvas) => Ok(canvas),
            None => Err(RadarError::DecodeFailure),
        },
        Err(_) => Err(RadarError::DecodeFailure),
    }
}

/// Decodes an image payload into a canvas. The format is guessed from the
/// payload; the formats that are known are those that the `image` crate is
/// built with, here PNG and GIF. An empty payload, and one that the decoder
/// rejects, a payload in another format among them, is a `DecodeFailure`.
pub fn decode(bytes: &[u8]) -> (made: Result<Canvas, RadarError>)
    ensures
        made is Ok <==> decoded_canvas(bytes@) is Some,
        made matches Ok(canvas) ==> decoded_canvas(bytes@) == Some(canvas@),
        made matches Err(error) ==> error == RadarError::DecodeFailure,
        bytes@.len() == 0 ==> made is Err,
{
    if bytes.len() == 0 {
        return Err(RadarError::DecodeFailure);
    }
    canvas_from_read(read_rgba8(bytes))
}

/// Lays `layer` over `canvas`, corner on corner, blending by the alpha of
/// `layer`. A layer that is wider or taller than the canvas is not clipped:
/// it is a `DimensionMismatch` that names the layer's source, and the canvas
/// stays as it was.
pub fn composite(canvas: &mut Canvas, layer: &Canvas, source: &str) -> (done: Result<
    (),
    RadarError,
>)
    ensures
        done is Ok <==> layer@.fits_within(old(canvas)@),
        done is Ok ==> final(canvas)@ == composited(old(canvas)@, layer@),
        done is Ok ==> forall|x: int, y: int|
            layer@.covers(x, y) && layer@.pixel(x, y)[3] == 0 ==> #[trigger] final(canvas)@.pixel(
                x,
                y,
            ) == old(canvas)@.pixel(x, y),
        done is Ok ==> forall|x: int, y: int|
            layer@.covers(x, y) && layer@.pixel(x, y)[3] == 255 ==> #[trigger] final(canvas)@.pixel(
                x,
                y,
            ) == layer@.pixel(x, y),
        done matches Err(error) ==> final(canvas)@ == old(canvas)@ && error@
            == (Fault::DimensionMismatch { name: source@ }),
{
    if layer.width() > canvas.width() || layer.height() > canvas.height() {
        return Err(RadarError::DimensionMismatch { name: String::from_str(source) });
    }
    proof {
        use_type_invariant(&*canvas);
    }
    if layer.width() == 0 || layer.height() == 0 {
        // A layer without pixels covers nothing.
        assert(composited(canvas@, layer@).pixels =~= canvas@.pixels);
        return Ok(());
    }
    overlay_rgba8(canvas, layer, 0, 0);
    proof {
        let before = old(canvas)@;
        let after = canvas@;
        let expected = composited(before, layer@);
        assert forall|x: int, y: int| after.covers(x, y) implies #[trigger] after.pixel(x, y)
            == expected.pixel(x, y) by {
            lemma_composited_pixel(before, layer@, x, y);
            lemma_pixel_in_bounds(after, x, y);
            lemma_pixel_in_bounds(before, x, y);
            assert(after.pixel(x, y) =~= expected.pixel(x, y));
        }
        if before.pixels.len() > 0 {
            lemma_byte_position(before, 0);
            lemma_composited_pixel(before, layer@, 0, 0);
        }
        assert(expected.wf());
        lemma_equal_by_pixels(after, expected);
    }
    Ok(())
}

} // verus!
