use crate::cursor::{transfer, written_at};
use crate::traits::{capacity_of, is_packed, lemma_pixel_in_bounds, replace_range, Image};
use crate::util::{lemma_address, lemma_row_in_image, write_pixel, xyrem_from_pos};
use vstd::prelude::*;

verus! {

/// Writes bytes into an image's pixels one after the other, from the first
/// on.
pub struct ImageWriter<I> {
    image: I,
    pos: u64,
}

impl<I> ImageWriter<I> {
    /// The image that is written.
    pub closed spec fn image(&self) -> I {
        self.image
    }

    /// The number of bytes written so far.
    pub closed spec fn position(&self) -> u64 {
        self.pos
    }

    /// A writer at the first byte of `image`.
    pub fn new(image: I) -> (writer: Self)
        ensures
            writer.image() == image,
            writer.position() == 0,
    {
        Self { image, pos: 0 }
    }

    /// Gives the image back, with what was written to it.
    pub fn into_image(self) -> (image: I)
        ensures
            image == self.image(),
    {
        self.image
    }
}

impl<I> ImageWriter<I> where I: Image {
    /// Writes `buf` behind what was written before, until `buf` is used up
    /// or the image is full. Returns the number of bytes written. No other
    /// byte of the image changes.
    pub fn write(&mut self, buf: &[u8]) -> (n: usize)
        ensures
            is_packed(old(self).image()),
            is_packed(final(self).image()),
            final(self).image().spec_width() == old(self).image().spec_width(),
            final(self).image().spec_height() == old(self).image().spec_height(),
            n == transfer(old(self).image().bytes().len(), old(self).position() as nat, buf@.len()),
            final(self).position() == old(self).position() + n,
            final(self).image().bytes() == written_at(
                old(self).image().bytes(),
                old(self).position() as nat,
                buf@,
            ),
    {
        let mut bytes_written: usize = 0;
        let width = self.image.width();
        let height = self.image.height();
        let len = buf.len();
        let ghost stream = self.image.bytes();
        let ghost start = self.pos as int;
        proof {
            I::lemma_pixel_size();
        }
        loop
            invariant
                is_packed(old(self).image()),
                self.image().bytes().len() == stream.len(),
                stream.len() == capacity_of(old(self).image()),
                self.image().spec_width() == old(self).image().spec_width(),
                self.image().spec_height() == old(self).image().spec_height(),
                width == self.image().spec_width(),
                height == self.image().spec_height(),
                1 <= I::BYTES_PER_PIXEL <= 16,
                stream == old(self).image().bytes(),
                start == old(self).position(),
                len == buf@.len(),
                bytes_written <= len,
                self.position() == start + bytes_written,
                bytes_written > 0 ==> start + bytes_written <= stream.len(),
                bytes_written == 0 ==> self.image().bytes() == stream,
                bytes_written > 0 ==> self.image().bytes() == replace_range(
                    stream,
                    start,
                    start + bytes_written,
                    buf@.subrange(0, bytes_written as int),
                ),
            ensures
                bytes_written == transfer(stream.len(), start as nat, buf@.len()),
            decreases len - bytes_written,
        {
            if bytes_written == len {
                break ;
            }
            if width == 0 {
                proof {
                    let h = height as nat;
                    let p = I::BYTES_PER_PIXEL as nat;
                    assert(0 * h * p == 0) by (nonlinear_arith);
                }
                break ;
            }
            proof {
                assert(0 < width * I::BYTES_PER_PIXEL <= 0xffff_ffff * 16) by (nonlinear_arith)
                    requires
                        0 < width <= 0xffff_ffff,
                        1 <= I::BYTES_PER_PIXEL <= 16,
                ;
                lemma_address(self.pos as nat, width as nat, I::BYTES_PER_PIXEL as nat);
                lemma_row_in_image(
                    self.pos as nat,
                    width as nat,
                    height as nat,
                    I::BYTES_PER_PIXEL as nat,
                );
            }
            let (pixel_x, pixel_y, rem) = xyrem_from_pos::<I>(self.pos, width as u64);
            if pixel_y >= height as u64 {
                break ;
            }
            let ghost before = self.image.bytes();
            proof {
                lemma_pixel_in_bounds(
                    width as nat,
                    height as nat,
                    I::BYTES_PER_PIXEL as nat,
                    pixel_x as nat,
                    pixel_y as nat,
                );
            }
            let i = match write_pixel(
                &mut self.image,
                pixel_x as u32,
                pixel_y as u32,
                &buf[bytes_written..len],
                rem as usize,
            ) {
                Some(v) => v,
                None => {
                    break ;
                },
            };
            if i == 0 {
                break ;
            }
            proof {
                let chunk = buf@.subrange(bytes_written as int, len as int).subrange(0, i as int);
                let done = start + bytes_written;
                assert(replace_range(before, done, done + i, chunk) =~= replace_range(
                    stream,
                    start,
                    done + i,
                    buf@.subrange(0, bytes_written + i),
                ));
            }
            bytes_written += i;
            self.pos += i as u64;
        }
        bytes_written
    }

    /// Does nothing: every write has reached the image already.
    pub fn flush(&mut self)
        ensures
            *final(self) == *old(self),
    {
    }
}

} // verus!
