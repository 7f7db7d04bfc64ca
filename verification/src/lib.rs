//! A codec that stores a byte payload in the pixels of an image and takes it
//! out again.
//!
//! The pixels of an image, row by row from the top and each row from the
//! left, are read as one flat stream of bytes. The first eight bytes of the
//! stream hold the payload's length as a big-endian number; the payload
//! follows at once, and the rest of the stream is zero.

use vstd::prelude::*;

mod private;

pub mod codec;
pub mod cursor;
pub mod error;
pub mod file;
pub mod fit;
pub mod format;
pub mod images;
pub mod raster;
pub mod reader;
pub mod traits;
pub mod util;
pub mod writer;

pub use crate::cursor::ImageCursor;
pub use crate::error::Error;
pub use crate::file::Header;
pub use crate::fit::AspectRatio;
pub use crate::format::{ImageFormat, PixelFormat};
pub use crate::images::{Rgb32, Rgb8, Rgba32, Rgba8};
pub use crate::reader::ImageReader;
pub use crate::traits::Image;
pub use crate::writer::ImageWriter;

use crate::codec::{decoded, dimensions, encodable, encoded, encoded_capacity};
use crate::codec::{lemma_header_exact, lemma_round_trip};
use crate::file::{be_value, lemma_be_bytes_len};
use crate::fit::{ceil_sqrt, fit, fit_height, fit_width, is_ceil_sqrt};
use crate::fit::{lemma_ceil_sqrt_exists, lemma_roots_cover};
use crate::raster::{pixel_stream, raster_bytes, raster_color, raster_height, raster_width};
use crate::traits::{capacity_of, is_packed};
use image::DynamicImage;

verus! {

/// `got` is what `expected` says: the same payload, or the same error.
pub open spec fn agrees(got: Result<Vec<u8>, Error>, expected: Result<Seq<u8>, Error>) -> bool {
    match got {
        Ok(data) => expected == Ok::<Seq<u8>, Error>(data@),
        Err(e) => expected == Err::<Seq<u8>, Error>(e),
    }
}

/// The sides of the smallest image of `pixel_num` pixels in the ratio
/// `ratio`: the square roots of `pixel_num * ratio` and of
/// `pixel_num / ratio`, each rounded up, and each cut off at the largest
/// `u32`. Where neither is cut off, the image has `pixel_num` pixels at
/// least.
pub fn min_dimensions_from_pixels(pixel_num: u64, ratio: AspectRatio) -> (dims: (u32, u32))
    requires
        pixel_num > 0,
        ratio.is_valid(),
    ensures
        dims.0 == fit_width(pixel_num as nat, ratio),
        dims.1 == fit_height(pixel_num as nat, ratio),
        ceil_sqrt(pixel_num as nat, ratio.num as nat, ratio.den as nat) <= u32::MAX && ceil_sqrt(
            pixel_num as nat,
            ratio.den as nat,
            ratio.num as nat,
        ) <= u32::MAX ==> {
            &&& is_ceil_sqrt(pixel_num as nat, ratio.num as nat, ratio.den as nat, dims.0 as nat)
            &&& is_ceil_sqrt(pixel_num as nat, ratio.den as nat, ratio.num as nat, dims.1 as nat)
            &&& dims.0 * dims.1 >= pixel_num
        },
{
    proof {
        let c = pixel_num as nat;
        let num = ratio.num as nat;
        let den = ratio.den as nat;
        lemma_ceil_sqrt_exists(c, num, den);
        lemma_ceil_sqrt_exists(c, den, num);
        lemma_roots_cover(c, num, den, ceil_sqrt(c, num, den), ceil_sqrt(c, den, num));
    }
    fit(pixel_num as u128, ratio)
}

/// The width and height of the image of kind `I` that carries `data` in the
/// ratio `ratio`: none for an empty payload.
#[must_use]
pub fn image_dimensions<I: Image>(data: &[u8], ratio: AspectRatio) -> (dims: (u32, u32))
    requires
        ratio.is_valid(),
    ensures
        dims.0 == dimensions(data@.len(), I::BYTES_PER_PIXEL as nat, ratio).0,
        dims.1 == dimensions(data@.len(), I::BYTES_PER_PIXEL as nat, ratio).1,
{
    if data.len() == 0 {
        (0, 0)
    } else {
        proof {
            I::lemma_pixel_size();
        }
        let total_bytes: u128 = (Header::SIZE as u128) + (data.len() as u128);
        let pixel_size = I::BYTES_PER_PIXEL as u128;
        let pixel_num = (total_bytes + (pixel_size - 1)) / pixel_size;
        assert(pixel_num <= total_bytes) by (nonlinear_arith)
            requires
                pixel_num == (total_bytes + (pixel_size - 1)) / pixel_size as int,
                pixel_size >= 1,
        ;
        fit(pixel_num, ratio)
    }
}

/// The number of bytes that an image of kind `I` of `x` by `y` pixels
/// holds.
#[must_use]
pub fn image_capacity<I: Image>(x: u32, y: u32) -> (capacity: u64)
    requires
        x * y * I::BYTES_PER_PIXEL <= u64::MAX,
    ensures
        capacity == x * y * I::BYTES_PER_PIXEL,
{
    proof {
        I::lemma_pixel_size();
        assert(x * y <= x * y * I::BYTES_PER_PIXEL) by (nonlinear_arith)
            requires
                I::BYTES_PER_PIXEL >= 1,
        ;
    }
    let pixel_num = (x as u64) * (y as u64);
    pixel_num * (I::BYTES_PER_PIXEL as u64)
}

/// The image of kind `I` that carries `data` in the ratio `ratio`: of the
/// size that `image_dimensions` gives, with the length of `data` in its
/// first eight bytes, `data` behind them, and all other bytes zero. An empty
/// payload gives an image without pixels. The first eight bytes of the
/// image spell the length of the payload, and the payload of the image is
/// `data`.
pub fn to_image<I: Image>(data: &[u8], ratio: AspectRatio) -> (img: I)
    requires
        ratio.is_valid(),
        encodable(data@.len(), I::BYTES_PER_PIXEL as nat, ratio),
    ensures
        is_packed(img),
        img.spec_width() == dimensions(data@.len(), I::BYTES_PER_PIXEL as nat, ratio).0,
        img.spec_height() == dimensions(data@.len(), I::BYTES_PER_PIXEL as nat, ratio).1,
        img.bytes() == encoded(data@, capacity_of(img)),
        data@.len() > 0 ==> img.bytes().len() >= 8 && be_value(img.bytes().subrange(0, 8))
            == data@.len(),
        decoded(img.bytes()) == Ok::<Seq<u8>, Error>(data@),
{
    let (image_x, image_y) = image_dimensions::<I>(data, ratio);
    proof {
        I::lemma_pixel_size();
        if data@.len() == 0 {
            assert(image_x * image_y * I::BYTES_PER_PIXEL == 0 && image_x * I::CHANNEL_NUM == 0)
                by (nonlinear_arith)
                requires
                    image_x == 0,
            ;
        } else {
            // an image that holds anything has a row, and a row's channels
            // are no more than the bytes of all rows
            assert(image_x * I::CHANNEL_NUM <= image_x * image_y * I::BYTES_PER_PIXEL)
                by (nonlinear_arith)
                requires
                    image_x * image_y * I::BYTES_PER_PIXEL > 0,
                    I::BYTES_PER_PIXEL == I::CHANNEL_NUM * I::CHANNEL_SIZE,
                    I::CHANNEL_SIZE >= 1,
            ;
        }
    }
    let mut image = ImageCursor::new(I::new_with_dimensions(image_x, image_y));
    if data.len() == 0 {
        proof {
            assert(image.image().bytes() =~= encoded(data@, 0));
            lemma_round_trip(data@, 0);
        }
        return image.into_image();
    }
    let header = Header { size: data.len() as u64 };
    let raw = header.to_bytes();
    let ghost blank = image.stream();
    let ghost capacity = blank.len();
    image.write(raw.as_slice());
    image.write(data);
    proof {
        lemma_be_bytes_len(data@.len(), 8);
        assert(raw@.subrange(0, 8) =~= raw@);
        assert(data@.subrange(0, data@.len() as int) =~= data@);
        assert(image.stream() =~= encoded(data@, capacity));
        lemma_header_exact(data@, capacity);
        lemma_round_trip(data@, capacity);
    }
    image.into_image()
}

/// As `to_image`, for every payload and ratio: `None` where the ratio is no
/// positive number, or where the image would be too large to be made on
/// this machine or its sides do not fit a `u32`.
pub fn try_to_image<I: Image>(data: &[u8], ratio: AspectRatio) -> (r: Option<I>)
    ensures
        r is Some <==> ratio.is_valid() && encodable(data@.len(), I::BYTES_PER_PIXEL as nat, ratio),
        r is Some ==> {
            let img = r.unwrap();
            &&& is_packed(img)
            &&& img.spec_width() == dimensions(data@.len(), I::BYTES_PER_PIXEL as nat, ratio).0
            &&& img.spec_height() == dimensions(data@.len(), I::BYTES_PER_PIXEL as nat, ratio).1
            &&& img.bytes() == encoded(data@, capacity_of(img))
            &&& data@.len() > 0 ==> img.bytes().len() >= 8 && be_value(
                img.bytes().subrange(0, 8),
            ) == data@.len()
            &&& decoded(img.bytes()) == Ok::<Seq<u8>, Error>(data@)
        },
{
    if ratio.num == 0 || ratio.den == 0 {
        return None;
    }
    let (image_x, image_y) = image_dimensions::<I>(data, ratio);
    proof {
        I::lemma_pixel_size();
        assert(image_x * image_y <= 0xffff_ffff * 0xffff_ffff) by (nonlinear_arith)
            requires
                image_x <= 0xffff_ffff,
                image_y <= 0xffff_ffff,
        ;
        assert(image_x * image_y * I::BYTES_PER_PIXEL <= 0xffff_ffff * 0xffff_ffff * 16)
            by (nonlinear_arith)
            requires
                0 <= image_x * image_y <= 0xffff_ffff * 0xffff_ffff,
                I::BYTES_PER_PIXEL <= 16,
        ;
    }
    let capacity: u128 = (image_x as u128) * (image_y as u128) * (I::BYTES_PER_PIXEL as u128);
    let needed: u128 = (Header::SIZE as u128) + (data.len() as u128);
    if data.len() > 0 && (capacity < needed || capacity > isize::MAX as u128) {
        return None;
    }
    Some(to_image::<I>(data, ratio))
}

/// The payload that `image` carries: none for an image without pixels; else
/// as many bytes as its first eight say, from the ninth on. Fails with
/// `Error::SizeLimit` where the image has pixels but not that many bytes.
/// Since the length is held against the size of the image before anything
/// is read, no read ends early.
pub fn from_image<I: Image>(image: I) -> (r: Result<Vec<u8>, Error>)
    ensures
        is_packed(image),
        agrees(r, decoded(image.bytes())),
{
    let mut image = ImageCursor::new(image);
    let capacity = image.capacity();
    if capacity == 0 {
        let data: Vec<u8> = Vec::new();
        assert(data@ =~= Seq::<u8>::empty());
        return Ok(data);
    }
    if capacity < Header::SIZE as u64 {
        return Err(Error::SizeLimit);
    }
    let ghost stream = image.stream();
    let mut raw = [0u8; 8];
    match image.read_exact(vstd::array::ref_mut_array_unsizing_coercion(&mut raw)) {
        Ok(()) => {},
        Err(e) => {
            return Err(e);
        },
    }
    let header = Header::from_bytes(&raw);
    assert(raw@ =~= stream.subrange(0, 8));
    if header.size > capacity - Header::SIZE as u64 {
        return Err(Error::SizeLimit);
    }
    let size = header.size as usize;
    let mut data = vec![0u8; size];
    match image.read_exact(data.as_mut_slice()) {
        Ok(()) => {},
        Err(e) => {
            return Err(e);
        },
    }
    assert(data@ =~= stream.subrange(8, 8 + size));
    Ok(data)
}

/// An image can be read for a payload: its pixels have one of the four
/// layouts, and its sample buffer holds them all.
pub open spec fn supported(image: DynamicImage) -> bool {
    match PixelFormat::spec_of_color(raster_color(image)) {
        Some(format) => raster_bytes(image).len() >= raster_width(image) * raster_height(image)
            * format.spec_pixel_size(),
        None => false,
    }
}

/// The stream of an image: the bytes of its pixels, from the front of its
/// sample buffer. What a buffer holds beyond its pixels is no part of it.
pub open spec fn stream_of(image: DynamicImage) -> Seq<u8> {
    match PixelFormat::spec_of_color(raster_color(image)) {
        Some(format) => pixel_stream(image, format.spec_pixel_size()),
        None => Seq::empty(),
    }
}

/// The image with pixels of layout `format` that carries `data` in the
/// ratio `ratio`, as `to_image` makes it; `None` where `try_to_image` gives
/// none. The image is one that `decode` reads, and its payload is `data`.
pub fn encode(data: &[u8], ratio: AspectRatio, format: PixelFormat) -> (r: Option<DynamicImage>)
    ensures
        r is Some <==> ratio.is_valid() && encodable(data@.len(), format.spec_pixel_size(), ratio),
        r is Some ==> {
            let img = r.unwrap();
            &&& supported(img)
            &&& PixelFormat::spec_of_color(raster_color(img)) == Some(format)
            &&& raster_width(img) == dimensions(data@.len(), format.spec_pixel_size(), ratio).0
            &&& raster_height(img) == dimensions(data@.len(), format.spec_pixel_size(), ratio).1
            &&& stream_of(img) == encoded(
                data@,
                encoded_capacity(data@.len(), format.spec_pixel_size(), ratio),
            )
            &&& data@.len() > 0 ==> stream_of(img).len() >= 8 && be_value(
                stream_of(img).subrange(0, 8),
            ) == data@.len()
            &&& decoded(stream_of(img)) == Ok::<Seq<u8>, Error>(data@)
        },
{
    proof {
        assert(PixelFormat::Rgb8.spec_pixel_size() == 3);
        assert(PixelFormat::Rgba8.spec_pixel_size() == 4);
        assert(PixelFormat::Rgb32.spec_pixel_size() == 12);
        assert(PixelFormat::Rgba32.spec_pixel_size() == 16);
        Rgb8::lemma_pixel_size();
        Rgba8::lemma_pixel_size();
        Rgb32::lemma_pixel_size();
        Rgba32::lemma_pixel_size();
    }
    match format {
        PixelFormat::Rgb8 => match try_to_image::<Rgb8>(data, ratio) {
            Some(img) => {
                proof {
                    img.lemma_dynamic();
                }
                Some(img.into_dynamic())
            },
            None => None,
        },
        PixelFormat::Rgba8 => match try_to_image::<Rgba8>(data, ratio) {
            Some(img) => {
                proof {
                    img.lemma_dynamic();
                }
                Some(img.into_dynamic())
            },
            None => None,
        },
        PixelFormat::Rgb32 => match try_to_image::<Rgb32>(data, ratio) {
            Some(img) => {
                proof {
                    img.lemma_dynamic();
                }
                Some(img.into_dynamic())
            },
            None => None,
        },
        PixelFormat::Rgba32 => match try_to_image::<Rgba32>(data, ratio) {
            Some(img) => {
                proof {
                    img.lemma_dynamic();
                }
                Some(img.into_dynamic())
            },
            None => None,
        },
    }
}

/// The payload that `image` carries, as `from_image` takes it out of the
/// bytes of its pixels. Fails with `Error::UnsupportedFormat`, before any
/// byte is read, where the image is not one of the four kinds.
pub fn decode(image: DynamicImage) -> (r: Result<Vec<u8>, Error>)
    ensures
        !supported(image) ==> r == Err::<Vec<u8>, Error>(Error::UnsupportedFormat),
        supported(image) ==> agrees(r, decoded(stream_of(image))),
{
    match PixelFormat::of_color(image.color()) {
        Some(PixelFormat::Rgb8) => match Rgb8::from_dynamic(image) {
            Some(img) => {
                proof {
                    img.lemma_dynamic();
                }
                from_image(img)
            },
            None => Err(Error::UnsupportedFormat),
        },
        Some(PixelFormat::Rgba8) => match Rgba8::from_dynamic(image) {
            Some(img) => {
                proof {
                    img.lemma_dynamic();
                }
                from_image(img)
            },
            None => Err(Error::UnsupportedFormat),
        },
        Some(PixelFormat::Rgb32) => match Rgb32::from_dynamic(image) {
            Some(img) => {
                proof {
                    img.lemma_dynamic();
                }
                from_image(img)
            },
            None => Err(Error::UnsupportedFormat),
        },
        Some(PixelFormat::Rgba32) => match Rgba32::from_dynamic(image) {
            Some(img) => {
                proof {
                    img.lemma_dynamic();
                }
                from_image(img)
            },
            None => Err(Error::UnsupportedFormat),
        },
        None => Err(Error::UnsupportedFormat),
    }
}

} // verus!
