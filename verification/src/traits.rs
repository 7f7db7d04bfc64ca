use crate::format::ImageFormat;
use crate::raster::zeros;
use vstd::prelude::*;

verus! {

/// Where the pixel in column `x` of row `y` begins in the bytes of an image
/// that is `width` pixels wide.
pub open spec fn pixel_start(width: nat, pixel_size: nat, x: nat, y: nat) -> nat {
    (y * width + x) * pixel_size
}

/// `bytes` with the part from `start` up to `end` replaced by `patch`.
pub open spec fn replace_range(bytes: Seq<u8>, start: int, end: int, patch: Seq<u8>) -> Seq<u8> {
    bytes.subrange(0, start) + patch + bytes.subrange(end, bytes.len() as int)
}

/// The bytes of the pixel in column `x` of row `y` among the bytes of an
/// image that is `width` pixels wide.
pub open spec fn pixel_bytes(bytes: Seq<u8>, width: nat, pixel_size: nat, x: nat, y: nat) -> Seq<
    u8,
> {
    bytes.subrange(
        pixel_start(width, pixel_size, x, y) as int,
        (pixel_start(width, pixel_size, x, y) + pixel_size) as int,
    )
}

/// `bytes` with `patch` in the place of the pixel in column `x` of row `y`.
pub open spec fn with_pixel(
    bytes: Seq<u8>,
    width: nat,
    pixel_size: nat,
    x: nat,
    y: nat,
    patch: Seq<u8>,
) -> Seq<u8> {
    replace_range(
        bytes,
        pixel_start(width, pixel_size, x, y) as int,
        (pixel_start(width, pixel_size, x, y) + pixel_size) as int,
        patch,
    )
}

/// A pixel inside the image lies inside its bytes, and so does everything
/// before it.
pub proof fn lemma_pixel_in_bounds(width: nat, height: nat, pixel_size: nat, x: nat, y: nat)
    requires
        x < width,
        y < height,
    ensures
        y * width + x < width * height,
        pixel_start(width, pixel_size, x, y) + pixel_size <= width * height * pixel_size,
{
    assert(y * width + x + 1 <= width * height) by (nonlinear_arith)
        requires
            x < width,
            y < height,
    ;
    assert((y * width + x) * pixel_size + pixel_size <= width * height * pixel_size)
        by (nonlinear_arith)
        requires
            y * width + x + 1 <= width * height,
    ;
}

/// A pixel inside the image is the same pixel in a buffer that goes on
/// beyond the image's pixels.
pub proof fn lemma_pixel_in_front(
    whole: Seq<u8>,
    width: nat,
    height: nat,
    pixel_size: nat,
    x: nat,
    y: nat,
)
    requires
        x < width,
        y < height,
        width * height * pixel_size <= whole.len(),
    ensures
        pixel_bytes(whole.subrange(0, (width * height * pixel_size) as int), width, pixel_size, x, y)
            == pixel_bytes(whole, width, pixel_size, x, y),
{
    lemma_pixel_in_bounds(width, height, pixel_size, x, y);
    let front = whole.subrange(0, (width * height * pixel_size) as int);
    assert(pixel_bytes(front, width, pixel_size, x, y) =~= pixel_bytes(
        whole,
        width,
        pixel_size,
        x,
        y,
    ));
}

/// Writing to a pixel inside the image, in a buffer that goes on beyond the
/// image's pixels, changes that pixel of the image and leaves what lies
/// beyond as it was.
pub proof fn lemma_pixel_in_prefix(
    whole: Seq<u8>,
    after: Seq<u8>,
    width: nat,
    height: nat,
    pixel_size: nat,
    x: nat,
    y: nat,
    patch: Seq<u8>,
)
    requires
        x < width,
        y < height,
        width * height * pixel_size <= whole.len(),
        after == with_pixel(whole, width, pixel_size, x, y, patch),
        after.len() == whole.len(),
    ensures
        patch.len() == pixel_size,
        pixel_bytes(whole.subrange(0, (width * height * pixel_size) as int), width, pixel_size, x, y)
            == pixel_bytes(whole, width, pixel_size, x, y),
        after.subrange(0, (width * height * pixel_size) as int) == with_pixel(
            whole.subrange(0, (width * height * pixel_size) as int),
            width,
            pixel_size,
            x,
            y,
            patch,
        ),
{
    lemma_pixel_in_bounds(width, height, pixel_size, x, y);
    lemma_pixel_in_front(whole, width, height, pixel_size, x, y);
    let cap = (width * height * pixel_size) as int;
    let front = whole.subrange(0, cap);
    assert(after.subrange(0, cap) =~= with_pixel(front, width, pixel_size, x, y, patch));
}

/// `len` bytes are what `width` by `height` pixels of `pixel_size` bytes
/// take, and can be addressed on this machine.
pub open spec fn packed(len: nat, width: nat, height: nat, pixel_size: nat) -> bool {
    &&& len == width * height * pixel_size
    &&& len <= usize::MAX
}

/// A rectangle of pixels that can be read and written as raw bytes.
pub trait Image: ImageFormat + Sized {
    /// The number of pixels in a row.
    spec fn spec_width(&self) -> nat;

    /// The number of rows.
    spec fn spec_height(&self) -> nat;

    /// The bytes of all pixels: row by row from the top, each row from the
    /// left, each pixel in the order of its bytes in memory.
    spec fn bytes(&self) -> Seq<u8>;

    /// An image of `x` by `y` pixels whose bytes are all zero. The channels
    /// of one row must be countable on this machine, even where there is no
    /// row, and the bytes of all pixels must fit one allocation.
    fn new_with_dimensions(x: u32, y: u32) -> (img: Self)
        requires
            x * Self::CHANNEL_NUM <= usize::MAX,
            x * y * Self::BYTES_PER_PIXEL <= isize::MAX,
        ensures
            img.spec_width() == x,
            img.spec_height() == y,
            img.bytes() == zeros((x * y * Self::BYTES_PER_PIXEL) as nat),
            packed(
                img.bytes().len(),
                img.spec_width(),
                img.spec_height(),
                Self::BYTES_PER_PIXEL as nat,
            ),
    ;

    /// The number of pixels in a row.
    fn width(&self) -> (w: u32)
        ensures
            w == self.spec_width(),
            packed(
                self.bytes().len(),
                self.spec_width(),
                self.spec_height(),
                Self::BYTES_PER_PIXEL as nat,
            ),
    ;

    /// The number of rows.
    fn height(&self) -> (h: u32)
        ensures
            h == self.spec_height(),
            packed(
                self.bytes().len(),
                self.spec_width(),
                self.spec_height(),
                Self::BYTES_PER_PIXEL as nat,
            ),
    ;

    /// The bytes of the pixel in column `x` of row `y`, or `None` where the
    /// image has no such pixel.
    fn get_pixel(&self, x: u32, y: u32) -> (pixel: Option<&[u8]>)
        ensures
            packed(
                self.bytes().len(),
                self.spec_width(),
                self.spec_height(),
                Self::BYTES_PER_PIXEL as nat,
            ),
            pixel is Some <==> x < self.spec_width() && y < self.spec_height(),
            pixel is Some ==> pixel.unwrap()@ == pixel_bytes(
                self.bytes(),
                self.spec_width(),
                Self::BYTES_PER_PIXEL as nat,
                x as nat,
                y as nat,
            ),
    ;

    /// The bytes of the pixel in column `x` of row `y`, to be written in
    /// place, or `None` where the image has no such pixel. What is written
    /// to them is all that changes in the image.
    fn get_pixel_mut(&mut self, x: u32, y: u32) -> (pixel: Option<&mut [u8]>)
        ensures
            packed(
                old(self).bytes().len(),
                old(self).spec_width(),
                old(self).spec_height(),
                Self::BYTES_PER_PIXEL as nat,
            ),
            final(self).spec_width() == old(self).spec_width(),
            final(self).spec_height() == old(self).spec_height(),
            pixel is Some <==> x < old(self).spec_width() && y < old(self).spec_height(),
            pixel is Some ==> pixel.unwrap()@ == pixel_bytes(
                old(self).bytes(),
                old(self).spec_width(),
                Self::BYTES_PER_PIXEL as nat,
                x as nat,
                y as nat,
            ),
            pixel is Some ==> final(self).bytes() == with_pixel(
                old(self).bytes(),
                old(self).spec_width(),
                Self::BYTES_PER_PIXEL as nat,
                x as nat,
                y as nat,
                final(pixel.unwrap())@,
            ),
            pixel is None ==> final(self).bytes() == old(self).bytes(),
    ;
}

/// The number of bytes that the pixels of an image take.
pub open spec fn capacity_of<I: Image>(img: I) -> nat {
    img.spec_width() * img.spec_height() * I::BYTES_PER_PIXEL as nat
}

/// The image holds the bytes of its pixels and no others, and they can be
/// addressed on this machine. Every image that the library hands out is like
/// this.
pub open spec fn is_packed<I: Image>(img: I) -> bool {
    packed(img.bytes().len(), img.spec_width(), img.spec_height(), I::BYTES_PER_PIXEL as nat)
}

/// The bytes of pixel (`x`, `y`) within a buffer that begins with the bytes
/// of a whole image.
pub(crate) fn pixel_of<'a>(
    bytes: &'a [u8],
    width: u32,
    height: u32,
    pixel_size: u32,
    x: u32,
    y: u32,
) -> (pixel: Option<&'a [u8]>)
    requires
        pixel_size >= 1,
        bytes@.len() >= width * height * pixel_size,
    ensures
        pixel is Some <==> x < width && y < height,
        pixel is Some ==> pixel.unwrap()@ == pixel_bytes(
            bytes@,
            width as nat,
            pixel_size as nat,
            x as nat,
            y as nat,
        ),
{
    if x >= width || y >= height {
        return None;
    }
    let len = bytes.len();
    proof {
        assert(len == bytes@.len());
        lemma_pixel_in_bounds(width as nat, height as nat, pixel_size as nat, x as nat, y as nat);
        assert(y * width + x <= (y * width + x) * pixel_size) by (nonlinear_arith)
            requires
                pixel_size >= 1,
        ;
    }
    let start: usize = (y as usize * width as usize + x as usize) * pixel_size as usize;
    let end: usize = start + pixel_size as usize;
    Some(&bytes[start..end])
}

/// The bytes of pixel (`x`, `y`) within a buffer that begins with the bytes
/// of a whole image, to be written in place.
pub(crate) fn pixel_of_mut<'a>(
    bytes: &'a mut [u8],
    width: u32,
    height: u32,
    pixel_size: u32,
    x: u32,
    y: u32,
) -> (pixel: Option<&'a mut [u8]>)
    requires
        pixel_size >= 1,
        old(bytes)@.len() >= width * height * pixel_size,
    ensures
        pixel is Some <==> x < width && y < height,
        pixel is Some ==> pixel.unwrap()@ == pixel_bytes(
            old(bytes)@,
            width as nat,
            pixel_size as nat,
            x as nat,
            y as nat,
        ),
        pixel is Some ==> final(bytes)@ == with_pixel(
            old(bytes)@,
            width as nat,
            pixel_size as nat,
            x as nat,
            y as nat,
            final(pixel.unwrap())@,
        ),
        pixel is None ==> final(bytes)@ == old(bytes)@,
{
    if x >= width || y >= height {
        return None;
    }
    let len = bytes.len();
    proof {
        assert(len == bytes@.len());
        lemma_pixel_in_bounds(width as nat, height as nat, pixel_size as nat, x as nat, y as nat);
        assert(y * width + x <= (y * width + x) * pixel_size) by (nonlinear_arith)
            requires
                pixel_size >= 1,
        ;
    }
    let start: usize = (y as usize * width as usize + x as usize) * pixel_size as usize;
    let ghost whole = bytes@;
    let (_, rest) = bytes.split_at_mut(start);
    let (pixel, _) = rest.split_at_mut(pixel_size as usize);
    proof {
        let n = whole.len() as int;
        let tail = whole.subrange(start as int, n);
        assert(tail.subrange(0, pixel_size as int) =~= whole.subrange(
            start as int,
            start + pixel_size,
        ));
        assert(tail.subrange(pixel_size as int, n - start) =~= whole.subrange(
            start + pixel_size,
            n,
        ));
        assert(whole.subrange(0, start as int) + (final(pixel)@ + tail.subrange(
            pixel_size as int,
            n - start,
        )) =~= replace_range(whole, start as int, start + pixel_size, final(pixel)@));
    }
    Some(pixel)
}

} // verus!
