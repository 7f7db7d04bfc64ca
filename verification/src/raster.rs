//! The image buffers of the `image` crate, as far as the codec uses them.
//!
//! Nothing in this file is proved: it states what the codec takes on trust
//! from `image::DynamicImage`. A buffer is described by four names: its
//! width, its height, the layout of its pixels and the bytes of its samples.

use image::ColorType;
use image::DynamicImage;
use std::ops::DerefMut;
use vstd::prelude::*;

verus! {

/// `image::DynamicImage`: an image buffer of one of several pixel layouts.
/// Its inside is hidden; the four names below speak of it.
#[verifier::external_type_specification]
#[verifier::external_body]
pub struct ExDynamicImage(DynamicImage);

/// `image::ColorType`: the pixel layouts that a `DynamicImage` can have.
#[verifier::external_type_specification]
pub struct ExColorType(ColorType);

/// The number of pixels in one row of the buffer.
pub uninterp spec fn raster_width(img: DynamicImage) -> nat;

/// The number of rows of the buffer.
pub uninterp spec fn raster_height(img: DynamicImage) -> nat;

/// The layout of the buffer's pixels.
pub uninterp spec fn raster_color(img: DynamicImage) -> ColorType;

/// The buffer's samples as they lie in memory, byte by byte: the pixels row
/// by row from the top, each row from the left, each pixel channel by
/// channel, each channel in the byte order of the machine.
pub uninterp spec fn raster_bytes(img: DynamicImage) -> Seq<u8>;

/// `n` zero bytes.
pub open spec fn zeros(n: nat) -> Seq<u8> {
    Seq::new(n, |i: int| 0u8)
}

/// The bytes of the buffer's pixels, where a pixel takes `pixel_size` bytes:
/// as many from the front of its samples as width times height pixels need.
/// A buffer may be longer than its pixels need; what lies beyond them
/// belongs to no pixel.
pub open spec fn pixel_stream(img: DynamicImage, pixel_size: nat) -> Seq<u8> {
    raster_bytes(img).subrange(0, (raster_width(img) * raster_height(img) * pixel_size) as int)
}

/// `DynamicImage::width` returns the width of the buffer it holds.
#[verifier::external_body]
pub(crate) fn width_of(img: &DynamicImage) -> (w: u32)
    ensures
        w == raster_width(*img),
{
    img.width()
}

/// `DynamicImage::height` returns the height of the buffer it holds.
#[verifier::external_body]
pub(crate) fn height_of(img: &DynamicImage) -> (h: u32)
    ensures
        h == raster_height(*img),
{
    img.height()
}

/// `DynamicImage::color` tells which of its variants the image is.
pub assume_specification[ DynamicImage::color ](img: &DynamicImage) -> (color: ColorType)
    ensures
        color == raster_color(*img),
;

/// `DynamicImage::as_bytes` hands out the whole sample buffer, cast to bytes
/// in place.
pub assume_specification[ DynamicImage::as_bytes ](img: &DynamicImage) -> (bytes: &[u8])
    ensures
        bytes@ == raster_bytes(*img),
;

/// `DynamicImage::new_rgb8` allocates `w * h` pixels of three `u8` samples,
/// all zero. It counts the samples in `usize`, the channels times the width
/// first and that times the height, and panics where either product has no
/// value, or where the allocation is larger than a vector may be. The first
/// clause of the precondition leaves out a width whose samples alone
/// overflow, whatever the height; the second leaves out the rest.
pub assume_specification[ DynamicImage::new_rgb8 ](w: u32, h: u32) -> (img: DynamicImage)
    requires
        w * 3 <= usize::MAX,
        w * h * 3 <= isize::MAX,
    ensures
        raster_width(img) == w,
        raster_height(img) == h,
        raster_color(img) == ColorType::Rgb8,
        raster_bytes(img) == zeros((w * h * 3) as nat),
;

/// `DynamicImage::new_rgba8` allocates `w * h` pixels of four `u8` samples,
/// all zero, and panics as `new_rgb8` does.
pub assume_specification[ DynamicImage::new_rgba8 ](w: u32, h: u32) -> (img: DynamicImage)
    requires
        w * 4 <= usize::MAX,
        w * h * 4 <= isize::MAX,
    ensures
        raster_width(img) == w,
        raster_height(img) == h,
        raster_color(img) == ColorType::Rgba8,
        raster_bytes(img) == zeros((w * h * 4) as nat),
;

/// `DynamicImage::new_rgb32f` allocates `w * h` pixels of three 32-bit float
/// samples, all zero, whose bytes are all zero, and panics as `new_rgb8`
/// does.
pub assume_specification[ DynamicImage::new_rgb32f ](w: u32, h: u32) -> (img: DynamicImage)
    requires
        w * 3 <= usize::MAX,
        w * h * 12 <= isize::MAX,
    ensures
        raster_width(img) == w,
        raster_height(img) == h,
        raster_color(img) == ColorType::Rgb32F,
        raster_bytes(img) == zeros((w * h * 12) as nat),
;

/// `DynamicImage::new_rgba32f` allocates `w * h` pixels of four 32-bit float
/// samples, all zero, whose bytes are all zero, and panics as `new_rgb8`
/// does.
pub assume_specification[ DynamicImage::new_rgba32f ](w: u32, h: u32) -> (img: DynamicImage)
    requires
        w * 4 <= usize::MAX,
        w * h * 16 <= isize::MAX,
    ensures
        raster_width(img) == w,
        raster_height(img) == h,
        raster_color(img) == ColorType::Rgba32F,
        raster_bytes(img) == zeros((w * h * 16) as nat),
;

/// `DynamicImage::as_mut_rgb8`, then `deref_mut` of the buffer: the sample
/// buffer of an RGB8 image, to be written in place; `None` for any other
/// layout. Writing through the slice changes the samples and nothing else.
#[verifier::external_body]
pub(crate) fn rgb8_bytes_mut(img: &mut DynamicImage) -> (bytes: Option<&mut [u8]>)
    ensures
        bytes is Some <==> raster_color(*old(img)) == ColorType::Rgb8,
        bytes is Some ==> bytes.unwrap()@ == raster_bytes(*old(img)),
        bytes is Some ==> raster_bytes(*final(img)) == final(bytes.unwrap())@,
        bytes is None ==> raster_bytes(*final(img)) == raster_bytes(*old(img)),
        raster_bytes(*final(img)).len() == raster_bytes(*old(img)).len(),
        raster_width(*final(img)) == raster_width(*old(img)),
        raster_height(*final(img)) == raster_height(*old(img)),
        raster_color(*final(img)) == raster_color(*old(img)),
    no_unwind
{
    img.as_mut_rgb8().map(DerefMut::deref_mut)
}

/// `DynamicImage::as_mut_rgba8`, then `deref_mut` of the buffer: as
/// `rgb8_bytes_mut`, for an RGBA8 image.
#[verifier::external_body]
pub(crate) fn rgba8_bytes_mut(img: &mut DynamicImage) -> (bytes: Option<&mut [u8]>)
    ensures
        bytes is Some <==> raster_color(*old(img)) == ColorType::Rgba8,
        bytes is Some ==> bytes.unwrap()@ == raster_bytes(*old(img)),
        bytes is Some ==> raster_bytes(*final(img)) == final(bytes.unwrap())@,
        bytes is None ==> raster_bytes(*final(img)) == raster_bytes(*old(img)),
        raster_bytes(*final(img)).len() == raster_bytes(*old(img)).len(),
        raster_width(*final(img)) == raster_width(*old(img)),
        raster_height(*final(img)) == raster_height(*old(img)),
        raster_color(*final(img)) == raster_color(*old(img)),
    no_unwind
{
    img.as_mut_rgba8().map(DerefMut::deref_mut)
}

/// `DynamicImage::as_mut_rgb32f`, `deref_mut` of the buffer, then
/// `bytemuck::cast_slice_mut`: the samples of an RGB32F image as the bytes
/// they occupy, to be written in place; `None` for any other layout. The cast
/// to bytes cannot fail: a byte has no alignment and divides every size.
#[verifier::external_body]
pub(crate) fn rgb32_bytes_mut(img: &mut DynamicImage) -> (bytes: Option<&mut [u8]>)
    ensures
        bytes is Some <==> raster_color(*old(img)) == ColorType::Rgb32F,
        bytes is Some ==> bytes.unwrap()@ == raster_bytes(*old(img)),
        bytes is Some ==> raster_bytes(*final(img)) == final(bytes.unwrap())@,
        bytes is None ==> raster_bytes(*final(img)) == raster_bytes(*old(img)),
        raster_bytes(*final(img)).len() == raster_bytes(*old(img)).len(),
        raster_width(*final(img)) == raster_width(*old(img)),
        raster_height(*final(img)) == raster_height(*old(img)),
        raster_color(*final(img)) == raster_color(*old(img)),
    no_unwind
{
    img.as_mut_rgb32f().map(DerefMut::deref_mut).map(bytemuck::cast_slice_mut)
}

/// `DynamicImage::as_mut_rgba32f`, `deref_mut` of the buffer, then
/// `bytemuck::cast_slice_mut`: as `rgb32_bytes_mut`, for an RGBA32F image.
#[verifier::external_body]
pub(crate) fn rgba32_bytes_mut(img: &mut DynamicImage) -> (bytes: Option<&mut [u8]>)
    ensures
        bytes is Some <==> raster_color(*old(img)) == ColorType::Rgba32F,
        bytes is Some ==> bytes.unwrap()@ == raster_bytes(*old(img)),
        bytes is Some ==> raster_bytes(*final(img)) == final(bytes.unwrap())@,
        bytes is None ==> raster_bytes(*final(img)) == raster_bytes(*old(img)),
        raster_bytes(*final(img)).len() == raster_bytes(*old(img)).len(),
        raster_width(*final(img)) == raster_width(*old(img)),
        raster_height(*final(img)) == raster_height(*old(img)),
        raster_color(*final(img)) == raster_color(*old(img)),
    no_unwind
{
    img.as_mut_rgba32f().map(DerefMut::deref_mut).map(bytemuck::cast_slice_mut)
}

} // verus!
