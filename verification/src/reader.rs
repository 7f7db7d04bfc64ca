use crate::cursor::{read_into, transfer};
use crate::traits::{is_packed, lemma_pixel_in_bounds, Image};
use crate::util::{copy_min_len, lemma_address, lemma_row_in_image, xyrem_from_pos};
use vstd::prelude::*;

verus! {

/// Reads the bytes of an image's pixels one after the other, from the first
/// on.
pub struct ImageReader<I> where I: Image {
    image: I,
    pos: u64,
}

impl<I> ImageReader<I> where I: Image {
    /// The image that is read.
    pub closed spec fn image(&self) -> I {
        self.image
    }

    /// The number of bytes read so far.
    pub closed spec fn position(&self) -> u64 {
        self.pos
    }

    /// A reader at the first byte of `image`.
    pub fn new(image: I) -> (reader: Self)
        ensures
            reader.image() == image,
            reader.position() == 0,
    {
        Self { image, pos: 0 }
    }

    /// Reads the next bytes of the image into `buf`, until `buf` is full or
    /// the image ends. Returns the number of bytes read.
    pub fn read(&mut self, buf: &mut [u8]) -> (n: usize)
        ensures
            is_packed(old(self).image()),
            final(self).image() == old(self).image(),
            n == transfer(
                old(self).image().bytes().len(),
                old(self).position() as nat,
                old(buf)@.len(),
            ),
            final(self).position() == old(self).position() + n,
            final(buf)@ == read_into(
                old(self).image().bytes(),
                old(self).position() as nat,
                old(buf)@,
            ),
    {
        let mut bytes_read: usize = 0;
        let width = self.image.width();
        let height = self.image.height();
        let ghost stream = self.image.bytes();
        let ghost start = self.pos as int;
        proof {
            I::lemma_pixel_size();
        }
        loop
            invariant
                self.image() == old(self).image(),
                is_packed(self.image()),
                width == self.image().spec_width(),
                height == self.image().spec_height(),
                1 <= I::BYTES_PER_PIXEL <= 16,
                stream == self.image().bytes(),
                start == old(self).position(),
                buf@.len() == old(buf)@.len(),
                bytes_read <= buf@.len(),
                self.position() == start + bytes_read,
                bytes_read > 0 ==> start + bytes_read <= stream.len(),
                bytes_read == 0 ==> buf@ == old(buf)@,
                bytes_read > 0 ==> buf@ == stream.subrange(start, start + bytes_read) + old(
                    buf,
                )@.subrange(bytes_read as int, old(buf)@.len() as int),
            ensures
                bytes_read == transfer(stream.len(), start as nat, old(buf)@.len()),
            decreases buf@.len() - bytes_read,
        {
            if bytes_read == buf.len() {
                break ;
            }
            if width == 0 {
                proof {
                    let h = height as nat;
                    let p = I::BYTES_PER_PIXEL as nat;
                    assert(0 * h * p == 0) by (nonlinear_arith);
                }
                break ;
            }
            proof {
                assert(0 < width * I::BYTES_PER_PIXEL <= 0xffff_ffff * 16) by (nonlinear_arith)
                    requires
                        0 < width <= 0xffff_ffff,
                        1 <= I::BYTES_PER_PIXEL <= 16,
                ;
                lemma_address(self.pos as nat, width as nat, I::BYTES_PER_PIXEL as nat);
                lemma_row_in_image(
                    self.pos as nat,
                    width as nat,
                    height as nat,
                    I::BYTES_PER_PIXEL as nat,
                );
            }
            let (pixel_x, pixel_y, rem) = xyrem_from_pos::<I>(self.pos, width as u64);
            if pixel_y >= height as u64 {
                break ;
            }
            let pixel = match self.image.get_pixel(pixel_x as u32, pixel_y as u32) {
                Some(v) => v,
                None => {
                    break ;
                },
            };
            let len = pixel.len();
            proof {
                assert(len == pixel@.len());
                lemma_pixel_in_bounds(
                    width as nat,
                    height as nat,
                    I::BYTES_PER_PIXEL as nat,
                    pixel_x as nat,
                    pixel_y as nat,
                );
            }
            let (_, tail) = buf.split_at_mut(bytes_read);
            let i = copy_min_len(&pixel[rem as usize..len], tail);
            if i == 0 {
                break ;
            }
            proof {
                assert(pixel@.subrange(rem as int, len as int).subrange(0, i as int)
                    =~= stream.subrange(start + bytes_read, start + bytes_read + i));
                assert(buf@ =~= stream.subrange(start, start + bytes_read + i) + old(buf)@.subrange(
                    bytes_read + i,
                    old(buf)@.len() as int,
                ));
            }
            bytes_read += i;
            self.pos += i as u64;
        }
        bytes_read
    }
}

} // verus!
