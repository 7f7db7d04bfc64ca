use crate::traits::{is_packed, lemma_pixel_in_bounds, pixel_start, replace_range, Image};
use vstd::prelude::*;

verus! {

/// The row of the pixel that holds byte `pos` of the stream, where a row
/// takes `row_bytes` bytes.
pub open spec fn pixel_row(pos: nat, row_bytes: nat) -> nat {
    pos / row_bytes
}

/// The column of the pixel that holds byte `pos` of the stream.
pub open spec fn pixel_column(pos: nat, row_bytes: nat, pixel_size: nat) -> nat {
    ((pos - pixel_row(pos, row_bytes) * row_bytes) / pixel_size as int) as nat
}

/// How far into its pixel byte `pos` of the stream lies.
pub open spec fn pixel_offset(pos: nat, row_bytes: nat, pixel_size: nat) -> nat {
    (pos - pixel_row(pos, row_bytes) * row_bytes - pixel_column(pos, row_bytes, pixel_size)
        * pixel_size) as nat
}

/// The address of a byte names a pixel of its row and a place inside that
/// pixel, and leads back to the byte: the pixel begins `pixel_offset` bytes
/// before it.
pub proof fn lemma_address(pos: nat, width: nat, pixel_size: nat)
    requires
        width > 0,
        pixel_size > 0,
    ensures
        pixel_column(pos, width * pixel_size, pixel_size) < width,
        pixel_offset(pos, width * pixel_size, pixel_size) < pixel_size,
        pixel_start(
            width,
            pixel_size,
            pixel_column(pos, width * pixel_size, pixel_size),
            pixel_row(pos, width * pixel_size),
        ) + pixel_offset(pos, width * pixel_size, pixel_size) == pos,
{
    let row_bytes = width * pixel_size;
    assert(row_bytes > 0) by (nonlinear_arith)
        requires
            row_bytes == width * pixel_size,
            width > 0,
            pixel_size > 0,
    ;
    let y = pos / row_bytes;
    let in_row = pos - y * row_bytes;
    assert(0 <= in_row < row_bytes && in_row == pos % row_bytes) by (nonlinear_arith)
        requires
            row_bytes > 0,
            y == pos / row_bytes,
            in_row == pos - y * row_bytes,
    ;
    let x = in_row / pixel_size as int;
    let off = in_row - x * pixel_size;
    assert(0 <= off < pixel_size && 0 <= x) by (nonlinear_arith)
        requires
            pixel_size > 0,
            in_row >= 0,
            x == in_row / pixel_size as int,
            off == in_row - x * pixel_size,
    ;
    assert(x < width) by (nonlinear_arith)
        requires
            in_row < width * pixel_size,
            x * pixel_size <= in_row,
            pixel_size > 0,
    ;
    assert((y * width + x) * pixel_size == y * (width * pixel_size) + x * pixel_size)
        by (nonlinear_arith);
}

/// A byte inside an image of `height` rows lies in one of its rows.
pub proof fn lemma_row_in_image(pos: nat, width: nat, height: nat, pixel_size: nat)
    requires
        width > 0,
        pixel_size > 0,
    ensures
        pos < width * height * pixel_size <==> pixel_row(pos, width * pixel_size) < height,
{
    let row_bytes = width * pixel_size;
    assert(row_bytes > 0) by (nonlinear_arith)
        requires
            row_bytes == width * pixel_size,
            width > 0,
            pixel_size > 0,
    ;
    assert(width * height * pixel_size == height * row_bytes) by (nonlinear_arith)
        requires
            row_bytes == width * pixel_size,
    ;
    let y = pos / row_bytes;
    assert(pos < height * row_bytes <==> y < height) by (nonlinear_arith)
        requires
            row_bytes > 0,
            y == pos / row_bytes,
    ;
}

/// Copies from `src` to `dst` as many items as both hold, and returns how
/// many that was.
pub fn copy_min_len<T: Copy>(src: &[T], dst: &mut [T]) -> (n: usize)
    ensures
        n == if src@.len() <= old(dst)@.len() {
            src@.len()
        } else {
            old(dst)@.len()
        },
        final(dst)@ == src@.subrange(0, n as int) + old(dst)@.subrange(
            n as int,
            old(dst)@.len() as int,
        ),
{
    let n = if src.len() <= dst.len() {
        src.len()
    } else {
        dst.len()
    };
    let mut i: usize = 0;
    while i < n
        invariant
            i <= n,
            n <= src@.len(),
            n <= dst@.len(),
            dst@.len() == old(dst)@.len(),
            dst@ =~= src@.subrange(0, i as int) + old(dst)@.subrange(
                i as int,
                old(dst)@.len() as int,
            ),
        decreases n - i,
    {
        dst[i] = src[i];
        i += 1;
    }
    n
}

/// Copies bytes of `buf` into the pixel in column `x` of row `y`, from its
/// byte `rem` on, until the pixel ends or `buf` is used up, and returns how
/// many; `None` where the image has no such pixel. The other bytes of the
/// pixel stay.
pub fn write_pixel<I: Image>(image: &mut I, x: u32, y: u32, buf: &[u8], rem: usize) -> (written:
    Option<usize>)
    requires
        rem < I::BYTES_PER_PIXEL,
    ensures
        is_packed(*old(image)),
        final(image).spec_width() == old(image).spec_width(),
        final(image).spec_height() == old(image).spec_height(),
        written is Some <==> x < old(image).spec_width() && y < old(image).spec_height(),
        written is None ==> final(image).bytes() == old(image).bytes(),
        written is Some ==> written.unwrap() == if buf@.len() <= I::BYTES_PER_PIXEL - rem {
            buf@.len() as int
        } else {
            I::BYTES_PER_PIXEL - rem
        },
        written is Some ==> final(image).bytes() == replace_range(
            old(image).bytes(),
            pixel_start(old(image).spec_width(), I::BYTES_PER_PIXEL as nat, x as nat, y as nat)
                + rem,
            pixel_start(old(image).spec_width(), I::BYTES_PER_PIXEL as nat, x as nat, y as nat)
                + rem + written.unwrap(),
            buf@.subrange(0, written.unwrap() as int),
        ),
{
    let ghost before = image.bytes();
    let ghost size = I::BYTES_PER_PIXEL as int;
    let ghost from = pixel_start(
        image.spec_width(),
        I::BYTES_PER_PIXEL as nat,
        x as nat,
        y as nat,
    ) as int;
    let ghost width = image.spec_width();
    let ghost height = image.spec_height();
    match image.get_pixel_mut(x, y) {
        Some(pixel) => {
            let ghost old_pixel = pixel@;
            proof {
                lemma_pixel_in_bounds(width, height, I::BYTES_PER_PIXEL as nat, x as nat, y as nat);
                assert(pixel.len() == pixel@.len());
            }
            let (_, unwritten) = pixel.split_at_mut(rem);
            let ghost room = unwritten@.len() as int;
            let i = copy_min_len(buf, unwritten);
            proof {
                let offset = rem as int;
                let tail = old_pixel.subrange(offset, size);
                let new_pixel = old_pixel.subrange(0, offset) + (buf@.subrange(0, i as int)
                    + tail.subrange(i as int, room));
                assert(replace_range(before, from, from + size, new_pixel) =~= replace_range(
                    before,
                    from + offset,
                    from + offset + i,
                    buf@.subrange(0, i as int),
                ));
            }
            Some(i)
        },
        None => None,
    }
}

/// The pixel that holds byte `pos` of the stream of an image `width` pixels
/// wide: its column, its row, and how far into it the byte lies.
pub fn xyrem_from_pos<I: Image>(pos: u64, width: u64) -> (xyr: (u64, u64, u64))
    requires
        0 < width * I::BYTES_PER_PIXEL <= u64::MAX,
    ensures
        xyr.0 == pixel_column(
            pos as nat,
            (width * I::BYTES_PER_PIXEL) as nat,
            I::BYTES_PER_PIXEL as nat,
        ),
        xyr.1 == pixel_row(pos as nat, (width * I::BYTES_PER_PIXEL) as nat),
        xyr.2 == pixel_offset(
            pos as nat,
            (width * I::BYTES_PER_PIXEL) as nat,
            I::BYTES_PER_PIXEL as nat,
        ),
{
    let pixel_size = I::BYTES_PER_PIXEL as u64;
    proof {
        I::lemma_pixel_size();
        assert(width > 0) by (nonlinear_arith)
            requires
                0 < width * pixel_size,
                pixel_size > 0,
        ;
        lemma_address(pos as nat, width as nat, pixel_size as nat);
    }
    let width = width * pixel_size;
    let y = pos / width;
    assert(y * width <= pos) by (nonlinear_arith)
        requires
            y == pos / width,
            width > 0,
    ;
    let x = (pos - (y * width)) / pixel_size;
    assert(x * pixel_size <= pos - y * width) by (nonlinear_arith)
        requires
            x == (pos - y * width) / pixel_size as int,
            pixel_size > 0,
            pos - y * width >= 0,
    ;
    let r = pos - (y * width) - (x * pixel_size);
    (x, y, r)
}

} // verus!
