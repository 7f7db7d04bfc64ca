//! What an image that carries a payload looks like, and what a payload an
//! image carries: the model that the library's functions are held to.

use crate::error::Error;
use crate::file::{
    be_bytes, be_value, lemma_be_bytes_len, lemma_be_value_of_bytes, lemma_pow256_8, pow256,
};
use crate::fit::{
    ceil_sqrt, fit_height, fit_width, lemma_ceil_sqrt_exists, lemma_ceil_sqrt_monotone,
    AspectRatio,
};
use crate::raster::zeros;
use vstd::prelude::*;

verus! {

/// The number of bytes in front of the payload: the header's.
pub open spec fn header_len() -> nat {
    8
}

/// The number of pixels of `pixel_size` bytes that hold a header and `len`
/// bytes of payload: the bytes over the pixel size, rounded up.
pub open spec fn pixels_needed(len: nat, pixel_size: nat) -> nat {
    ((header_len() + len + pixel_size - 1) / pixel_size as int) as nat
}

/// The width and height of the image that carries `len` bytes of payload in
/// pixels of `pixel_size` bytes: nothing for an empty payload, else the
/// sides that give the pixels needed in the ratio asked for.
pub open spec fn dimensions(len: nat, pixel_size: nat, ratio: AspectRatio) -> (nat, nat) {
    if len == 0 {
        (0, 0)
    } else {
        (
            fit_width(pixels_needed(len, pixel_size), ratio),
            fit_height(pixels_needed(len, pixel_size), ratio),
        )
    }
}

/// The number of bytes of the image that `dimensions` describes.
pub open spec fn encoded_capacity(len: nat, pixel_size: nat, ratio: AspectRatio) -> nat {
    dimensions(len, pixel_size, ratio).0 * dimensions(len, pixel_size, ratio).1 * pixel_size
}

/// The image that `dimensions` describes can be made on this machine and
/// holds the header and the payload.
pub open spec fn encodable(len: nat, pixel_size: nat, ratio: AspectRatio) -> bool {
    len > 0 ==> header_len() + len <= encoded_capacity(len, pixel_size, ratio) <= isize::MAX
}

/// The stream of an image of `capacity` bytes that carries `data`: the
/// length of `data` in eight bytes, `data`, and zeros to the end. An empty
/// payload is carried by an image without pixels.
pub open spec fn encoded(data: Seq<u8>, capacity: nat) -> Seq<u8> {
    if data.len() == 0 {
        Seq::empty()
    } else {
        be_bytes(data.len(), 8) + data + zeros((capacity - header_len() - data.len()) as nat)
    }
}

/// The payload that an image with the stream `stream` carries: none for an
/// image without pixels; else as many bytes as the first eight say, from the
/// ninth on. Where the stream is shorter than a header, or than header and
/// payload, the length is over the limit.
pub open spec fn decoded(stream: Seq<u8>) -> Result<Seq<u8>, Error> {
    if stream.len() == 0 {
        Ok(Seq::empty())
    } else if stream.len() < header_len() {
        Err(Error::SizeLimit)
    } else {
        let size = be_value(stream.subrange(0, 8));
        if size + header_len() > stream.len() {
            Err(Error::SizeLimit)
        } else {
            Ok(stream.subrange(8, (8 + size) as int))
        }
    }
}

/// What goes into an image comes out of it: the payload of the image that
/// carries `data` is `data`, whatever the size of the image, as long as it
/// holds header and payload.
pub proof fn lemma_round_trip(data: Seq<u8>, capacity: nat)
    requires
        data.len() <= u64::MAX,
        data.len() > 0 ==> header_len() + data.len() <= capacity,
    ensures
        decoded(encoded(data, capacity)) == Ok::<Seq<u8>, Error>(data),
{
    let stream = encoded(data, capacity);
    if data.len() > 0 {
        lemma_header_exact(data, capacity);
        assert(stream.subrange(8, (8 + data.len()) as int) =~= data);
    } else {
        assert(data =~= Seq::<u8>::empty());
    }
}

/// The first eight bytes of the stream of an image that carries a payload
/// spell the payload's length.
pub proof fn lemma_header_exact(data: Seq<u8>, capacity: nat)
    requires
        0 < data.len() <= u64::MAX,
        header_len() + data.len() <= capacity,
    ensures
        encoded(data, capacity).len() == capacity,
        be_value(encoded(data, capacity).subrange(0, 8)) == data.len(),
{
    let stream = encoded(data, capacity);
    lemma_be_bytes_len(data.len(), 8);
    assert(stream.subrange(0, 8) =~= be_bytes(data.len(), 8));
    lemma_be_value_of_bytes(data.len(), 8);
    lemma_pow256_8();
    assert(data.len() % pow256(8) == data.len()) by (nonlinear_arith)
        requires
            data.len() < pow256(8),
    ;
}

/// A header that promises more than the image holds is found out: the
/// payload of an image with pixels whose first eight bytes spell more than
/// its bytes beyond them is over the limit, and so is that of an image too
/// small for a header.
pub proof fn lemma_corrupt_header(stream: Seq<u8>)
    requires
        stream.len() > 0,
        stream.len() < header_len() || be_value(stream.subrange(0, 8)) > stream.len()
            - header_len(),
    ensures
        decoded(stream) == Err::<Seq<u8>, Error>(Error::SizeLimit),
{
}

/// A longer payload never needs fewer pixels.
pub proof fn lemma_pixels_needed_monotone(len1: nat, len2: nat, pixel_size: nat)
    requires
        pixel_size > 0,
        len1 <= len2,
    ensures
        pixels_needed(len1, pixel_size) <= pixels_needed(len2, pixel_size),
        pixels_needed(len1, pixel_size) * pixel_size >= header_len() + len1,
        pixels_needed(len1, pixel_size) > 0,
{
    let a = header_len() + len1 + pixel_size - 1;
    let b = header_len() + len2 + pixel_size - 1;
    assert(a / pixel_size as int <= b / pixel_size as int) by (nonlinear_arith)
        requires
            0 <= a <= b,
            pixel_size > 0,
    ;
    assert((a / pixel_size as int) * pixel_size >= a - (pixel_size - 1) && a / pixel_size as int
        > 0) by (nonlinear_arith)
        requires
            a >= pixel_size,
            pixel_size > 0,
    ;
}

/// In one ratio and one pixel layout, a longer payload never gets a
/// narrower or a lower image.
pub proof fn lemma_dimensions_monotone(len1: nat, len2: nat, pixel_size: nat, ratio: AspectRatio)
    requires
        ratio.is_valid(),
        pixel_size > 0,
        len1 <= len2,
    ensures
        dimensions(len1, pixel_size, ratio).0 <= dimensions(len2, pixel_size, ratio).0,
        dimensions(len1, pixel_size, ratio).1 <= dimensions(len2, pixel_size, ratio).1,
{
    if len1 > 0 {
        lemma_pixels_needed_monotone(len1, len2, pixel_size);
        let c1 = pixels_needed(len1, pixel_size);
        let c2 = pixels_needed(len2, pixel_size);
        lemma_ceil_sqrt_monotone(c1, c2, ratio.num as nat, ratio.den as nat);
        lemma_ceil_sqrt_monotone(c1, c2, ratio.den as nat, ratio.num as nat);
    }
}

/// The sides of the image keep to the ratio as closely as whole pixels
/// allow: where neither side is cut off at the largest `u32`, the ratio
/// lies between `(width - 1) / height` and `width / (height - 1)`.
pub proof fn lemma_aspect_adherence(len: nat, pixel_size: nat, ratio: AspectRatio)
    requires
        ratio.is_valid(),
        pixel_size > 0,
        len > 0,
        ceil_sqrt(pixels_needed(len, pixel_size), ratio.num as nat, ratio.den as nat) <= u32::MAX,
        ceil_sqrt(pixels_needed(len, pixel_size), ratio.den as nat, ratio.num as nat) <= u32::MAX,
    ensures
        ({
            let (width, height) = dimensions(len, pixel_size, ratio);
            &&& width > 0
            &&& height > 0
            &&& (width - 1) * ratio.den < height * ratio.num
            &&& (height - 1) * ratio.num < width * ratio.den
        }),
{
    let c = pixels_needed(len, pixel_size);
    let num = ratio.num as nat;
    let den = ratio.den as nat;
    lemma_pixels_needed_monotone(len, len, pixel_size);
    lemma_ceil_sqrt_exists(c, num, den);
    lemma_ceil_sqrt_exists(c, den, num);
    let w = ceil_sqrt(c, num, den);
    let h = ceil_sqrt(c, den, num);
    assert(c * num > 0 && c * den > 0) by (nonlinear_arith)
        requires
            c > 0,
            num > 0,
            den > 0,
    ;
    assert(w > 0 && h > 0) by (nonlinear_arith)
        requires
            w * w * den >= c * num,
            h * h * num >= c * den,
            c * num > 0,
            c * den > 0,
    ;
    lemma_between(c, num, den, w, h);
    lemma_between(c, den, num, h, w);
}

/// Where `(w - 1)^2 < c * num / den` and `c * den / num <= h^2`, there
/// `(w - 1) / h < num / den`.
proof fn lemma_between(c: nat, num: nat, den: nat, w: nat, h: nat)
    requires
        num > 0,
        den > 0,
        w > 0,
        (w - 1) * (w - 1) * den < c * num,
        h * h * num >= c * den,
    ensures
        (w - 1) * den < h * num,
{
    let a = (w - 1) * den;
    let b = h * num;
    if a >= b {
        assert(a * a >= b * b) by (nonlinear_arith)
            requires
                a >= b,
                b >= 0,
        ;
        assert(a * a == ((w - 1) * (w - 1) * den) * den) by (nonlinear_arith)
            requires
                a == (w - 1) * den,
        ;
        assert(b * b == (h * h * num) * num) by (nonlinear_arith)
            requires
                b == h * num,
        ;
        assert(((w - 1) * (w - 1) * den) * den < (c * num) * den) by (nonlinear_arith)
            requires
                (w - 1) * (w - 1) * den < c * num,
                den > 0,
        ;
        assert((h * h * num) * num >= (c * den) * num) by (nonlinear_arith)
            requires
                h * h * num >= c * den,
                num > 0,
        ;
        assert((c * num) * den == (c * den) * num) by (nonlinear_arith);
    }
}

} // verus!
