//! From the encoded bytes of an image to the fixed-size tensor that the
//! classifier takes: decode, resize to a square, and lay the colour channels
//! out plane by plane.

use vstd::prelude::*;
use vstd::arithmetic::div_mod::lemma_fundamental_div_mod_converse;
use vstd::string::StringExecFns;
use image::ImageError;
use crate::error::Error;

verus! {

/// The side of the square to which every image is resized, in pixels.
pub const IMAGE_DIM: u32 = 64;

/// The number of values in the tensor of one image: three colour planes of
/// `IMAGE_DIM` by `IMAGE_DIM` pixels.
pub const TENSOR_LEN: usize = 12288;

/// A decoded picture: its size in pixels and its pixels row by row, three
/// bytes (red, green, blue) for each.
#[derive(Debug)]
pub struct Picture {
    pub width: u32,
    pub height: u32,
    pub data: Vec<u8>,
}

/// A picture as a mathematical value: width, height and pixel bytes.
pub type PictureView = (u32, u32, Seq<u8>);

impl View for Picture {
    type V = PictureView;

    open spec fn view(&self) -> PictureView {
        (self.width, self.height, self.data@)
    }
}

/// The picture holds at least one pixel, its data are exactly its pixels, and
/// the buffers that resizing it to `IMAGE_DIM` rows needs can be addressed on
/// this machine.
pub open spec fn resizable(picture: PictureView) -> bool {
    &&& picture.0 >= 1
    &&& picture.1 >= 1
    &&& picture.2.len() == 3 * picture.0 * picture.1
    &&& 4 * picture.0 * IMAGE_DIM <= usize::MAX
}

#[verifier::external_type_specification]
#[verifier::external_body]
pub struct ExImageError(image::ImageError);

/// The pixels of `imageops::resize` with the filter `Nearest`, for a picture
/// of `width` by `height` pixels resized to `new_width` by `new_height`.
pub uninterp spec fn resized_nearest(
    data: Seq<u8>,
    width: u32,
    height: u32,
    new_width: u32,
    new_height: u32,
) -> Seq<u8>;

/// Calls `image::load_from_memory` and hands the picture out as 8-bit RGB
/// (`DynamicImage::into_rgb8`). The format is guessed from the bytes. Nothing
/// is promised of what comes back: which pixels a decoder makes of the bytes
/// can differ from one machine to the next.
#[verifier::external_body]
fn decode_rgb8(encoded: &[u8]) -> (r: Result<Picture, ImageError>) {
    let rgb = image::load_from_memory(encoded)?.into_rgb8();
    Ok(Picture { width: rgb.width(), height: rgb.height(), data: rgb.into_raw() })
}

/// Calls `image::imageops::resize` with the filter `Nearest` on an 8-bit RGB
/// picture. The result has `new_width` by `new_height` pixels of three bytes,
/// and depends on the arguments alone. The function resamples the rows first,
/// into a buffer of 4 × `width` × `new_height` values, and then the columns,
/// into one of 3 × `new_width` × `new_height`; the preconditions keep the
/// picture and both buffers within what a vector can hold.
#[verifier::external_body]
fn resize_nearest(picture: Picture, new_width: u32, new_height: u32) -> (resized: Vec<u8>)
    requires
        picture.width >= 1,
        picture.height >= 1,
        picture.data@.len() == 3 * picture.width * picture.height,
        1 <= new_width <= 0x4000,
        1 <= new_height <= 0x4000,
        4 * picture.width * new_height <= usize::MAX,
    ensures
        resized@ == resized_nearest(
            picture.data@,
            picture.width,
            picture.height,
            new_width,
            new_height,
        ),
        resized@.len() == 3 * new_width * new_height,
{
    let source = image::RgbImage::from_raw(picture.width, picture.height, picture.data).unwrap();
    image::imageops::resize(&source, new_width, new_height, image::imageops::FilterType::Nearest)
        .into_raw()
}

/// The text of an `image::ImageError`, as its `Display` gives it.
#[verifier::external_body]
fn image_error_text(error: &ImageError) -> String {
    error.to_string()
}

/// The same values plane by plane: for pixel bytes `r g b r g b ...`, first
/// every red value, then every green one, then every blue one. Bytes beyond
/// the last whole pixel are left out.
pub open spec fn planar(interleaved: Seq<u8>) -> Seq<u8> {
    let pixels = (interleaved.len() / 3) as int;
    Seq::new((3 * pixels) as nat, |k: int| interleaved[3 * (k % pixels) + k / pixels])
}

/// What is said of a decoded picture that cannot be resized.
pub const NOT_RESIZABLE: &'static str = "the picture cannot be resized";

/// The tensor values of a picture: the picture resized to `IMAGE_DIM` by
/// `IMAGE_DIM` pixels, laid out plane by plane.
pub open spec fn tensor_of(picture: PictureView) -> Seq<u8> {
    planar(resized_nearest(picture.2, picture.0, picture.1, IMAGE_DIM, IMAGE_DIM))
}

/// In the planar layout the value of channel `channel` of pixel `pixel` stands
/// at index `channel * pixels + pixel`.
pub proof fn lemma_planar_index(interleaved: Seq<u8>, channel: int, pixel: int)
    requires
        0 <= channel < 3,
        0 <= pixel < interleaved.len() / 3,
    ensures
        planar(interleaved).len() == 3 * (interleaved.len() / 3),
        0 <= channel * (interleaved.len() / 3) + pixel < planar(interleaved).len(),
        planar(interleaved)[channel * (interleaved.len() / 3) + pixel] == interleaved[3 * pixel
            + channel],
{
    let pixels = (interleaved.len() / 3) as int;
    let k = channel * pixels + pixel;
    assert(0 <= k < 3 * pixels) by (nonlinear_arith)
        requires
            0 <= channel < 3,
            0 <= pixel < pixels,
            k == channel * pixels + pixel,
    ;
    lemma_fundamental_div_mod_converse(k, pixels, channel, pixel);
}

/// Lays pixel bytes out plane by plane.
pub fn to_planar(interleaved: &Vec<u8>) -> (planes: Vec<u8>)
    ensures
        planes@ == planar(interleaved@),
{
    let pixels: usize = interleaved.len() / 3;
    let mut planes: Vec<u8> = Vec::new();
    let mut channel: usize = 0;
    while channel < 3
        invariant
            channel <= 3,
            pixels == interleaved.len() / 3,
            3 * pixels <= interleaved.len(),
            planes@.len() == channel * pixels,
            forall|c: int, p: int|
                0 <= c < channel && 0 <= p < pixels ==> #[trigger] planes@[c * pixels + p]
                    == interleaved@[3 * p + c],
        decreases 3 - channel,
    {
        let mut pixel: usize = 0;
        while pixel < pixels
            invariant
                channel < 3,
                pixel <= pixels,
                pixels == interleaved.len() / 3,
                3 * pixels <= interleaved.len(),
                planes@.len() == channel * pixels + pixel,
                forall|c: int, p: int|
                    0 <= c < channel && 0 <= p < pixels ==> #[trigger] planes@[c * pixels + p]
                        == interleaved@[3 * p + c],
                forall|p: int|
                    0 <= p < pixel ==> #[trigger] planes@[channel * pixels + p] == interleaved@[3
                        * p + channel],
            decreases pixels - pixel,
        {
            let ghost before = planes@;
            planes.push(interleaved[3 * pixel + channel]);
            proof {
                assert forall|c: int, p: int| 0 <= c < channel && 0 <= p < pixels implies (
                #[trigger] planes@[c * pixels + p]) == interleaved@[3 * p + c] by {
                    assert(c * pixels + p < channel * pixels) by (nonlinear_arith)
                        requires
                            0 <= c < channel,
                            0 <= p < pixels,
                    ;
                    assert(planes@[c * pixels + p] == before[c * pixels + p]);
                }
            }
            pixel += 1;
        }
        assert((channel + 1) * pixels == channel * pixels + pixels) by (nonlinear_arith);
        assert forall|c: int, p: int| 0 <= c < channel + 1 && 0 <= p < pixels implies (
        #[trigger] planes@[c * pixels + p]) == interleaved@[3 * p + c] by {
            if c == channel {
                assert(planes@[channel * pixels + p] == interleaved@[3 * p + channel]);
            }
        }
        channel += 1;
    }
    proof {
        let wanted = planar(interleaved@);
        assert(planes@.len() == wanted.len());
        assert forall|k: int| 0 <= k < wanted.len() implies planes@[k] == wanted[k] by {
            let n = pixels as int;
            let c = k / n;
            let p = k % n;
            assert(n > 0);
            assert(k == c * n + p && 0 <= p < n && 0 <= c < 3) by (nonlinear_arith)
                requires
                    0 <= k < 3 * n,
                    n > 0,
                    c == k / n,
                    p == k % n,
            ;
            assert(planes@[c * n + p] == interleaved@[3 * p + c]);
        }
        assert(planes@ =~= wanted);
    }
    planes
}

/// Tells whether a picture can be resized to the tensor's square.
pub fn is_resizable(picture: &Picture) -> (r: bool)
    ensures
        r == resizable(picture@),
{
    if picture.width == 0 || picture.height == 0 {
        return false;
    }
    assert(picture.width * picture.height <= 0xFFFF_FFFF * 0xFFFF_FFFF) by (nonlinear_arith)
        requires
            picture.width <= 0xFFFF_FFFF,
            picture.height <= 0xFFFF_FFFF,
    ;
    let area: u64 = (picture.width as u64) * (picture.height as u64);
    let wanted: u128 = 3 * (area as u128);
    let rows: u64 = 256 * (picture.width as u64);
    assert(3 * picture.width * picture.height == 3 * (picture.width * picture.height))
        by (nonlinear_arith);
    assert(4 * picture.width * IMAGE_DIM == 256 * picture.width) by (nonlinear_arith)
        requires
            IMAGE_DIM == 64,
    ;
    picture.data.len() as u128 == wanted && rows <= usize::MAX as u64
}

/// The tensor values of a decoded picture: the picture is resized to
/// `IMAGE_DIM` by `IMAGE_DIM` pixels, by taking for each new pixel the nearest
/// old one, and the result is laid out plane by plane.
pub fn picture_tensor(picture: Picture) -> (tensor: Vec<u8>)
    requires
        resizable(picture@),
    ensures
        tensor@ == tensor_of(picture@),
        tensor@.len() == TENSOR_LEN,
{
    let resized = resize_nearest(picture, IMAGE_DIM, IMAGE_DIM);
    to_planar(&resized)
}

/// Computes the tensor values of what a decoder made of an image: a picture,
/// or the words that say why the bytes are no image.
///
/// A picture that can be resized gives its tensor values, `TENSOR_LEN` bytes.
/// A picture that cannot, and bytes that are no image, give an
/// `ImageDecodeFailure` that says why.
pub fn tensor_of_decoded(decoded: Result<Picture, String>) -> (r: Result<Vec<u8>, Error>)
    ensures
        match decoded {
            Ok(picture) => if resizable(picture@) {
                r matches Ok(values) && values@ == tensor_of(picture@) && values@.len()
                    == TENSOR_LEN
            } else {
                r matches Err(Error::ImageDecodeFailure(why)) && why@ == NOT_RESIZABLE@
            },
            Err(said) => r matches Err(Error::ImageDecodeFailure(why)) && why@ == said@,
        },
{
    match decoded {
        Ok(picture) => {
            if is_resizable(&picture) {
                Ok(picture_tensor(picture))
            } else {
                Err(Error::ImageDecodeFailure(String::from_str(NOT_RESIZABLE)))
            }
        },
        Err(said) => Err(Error::ImageDecodeFailure(said)),
    }
}

/// Decodes an image and computes its tensor values: `TENSOR_LEN` bytes, each
/// the strength of one colour in one pixel. The classifier takes them scaled
/// to the unit interval.
///
/// Whatever the decoder makes of the bytes, values that come back are the
/// tensor values of a picture that can be resized, and an error that comes
/// back is an `ImageDecodeFailure`.
pub fn get_image(encoded: &[u8]) -> (r: Result<Vec<u8>, Error>)
    ensures
        match r {
            Ok(values) => values@.len() == TENSOR_LEN && exists|picture: PictureView|
                resizable(picture) && values@ == #[trigger] tensor_of(picture),
            Err(e) => e is ImageDecodeFailure,
        },
{
    let decoded = match decode_rgb8(encoded) {
        Ok(picture) => Ok(picture),
        Err(e) => Err(image_error_text(&e)),
    };
    let ghost made = decoded;
    let r = tensor_of_decoded(decoded);
    proof {
        if r is Ok {
            assert(resizable(made->Ok_0@));
            assert(r->Ok_0@ == tensor_of(made->Ok_0@));
        }
    }
    r
}

} // verus!
