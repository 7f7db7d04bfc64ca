use crate::error::Error;
use crate::traits::{
    capacity_of, is_packed, lemma_pixel_in_bounds, pixel_start, replace_range, Image,
};
use crate::util::{
    copy_min_len, lemma_address, lemma_row_in_image, pixel_column, pixel_offset, pixel_row,
    write_pixel, xyrem_from_pos,
};
use std::io::SeekFrom;
use vstd::prelude::*;

verus! {

/// `std::io::SeekFrom`: from where a seek counts, and how far.
#[verifier::external_type_specification]
pub struct ExSeekFrom(SeekFrom);

/// `base + offset`, held to the range of `u64`.
pub open spec fn saturating_offset(base: int, offset: int) -> u64 {
    if base + offset < 0 {
        0
    } else if base + offset > u64::MAX {
        u64::MAX
    } else {
        (base + offset) as u64
    }
}

/// Where a seek leads, from a position in a stream of `capacity` bytes.
pub open spec fn seek_target(position: u64, capacity: nat, from: SeekFrom) -> u64 {
    match from {
        SeekFrom::Start(offset) => offset,
        SeekFrom::Current(offset) => saturating_offset(position as int, offset as int),
        SeekFrom::End(offset) => saturating_offset(capacity as int, offset as int),
    }
}

/// The smaller of two numbers.
pub open spec fn min_of(a: int, b: int) -> int {
    if a <= b {
        a
    } else {
        b
    }
}

/// How many of `wanted` bytes can be read or written at `pos` in a stream of
/// `len` bytes: all of them, or those that are left before the stream ends.
pub open spec fn transfer(len: nat, pos: nat, wanted: nat) -> nat {
    if pos >= len {
        0
    } else {
        min_of(wanted as int, len - pos) as nat
    }
}

/// What a read at `pos` of `stream` leaves in a buffer that held `buf`: the
/// bytes of the stream in front, the rest as it was.
pub open spec fn read_into(stream: Seq<u8>, pos: nat, buf: Seq<u8>) -> Seq<u8> {
    let n = transfer(stream.len(), pos, buf.len());
    if n == 0 {
        buf
    } else {
        stream.subrange(pos as int, (pos + n) as int) + buf.subrange(n as int, buf.len() as int)
    }
}

/// What a write of `buf` at `pos` makes of `stream`: the bytes of `buf` that
/// fit stand from `pos` on, the rest is as it was.
pub open spec fn written_at(stream: Seq<u8>, pos: nat, buf: Seq<u8>) -> Seq<u8> {
    let n = transfer(stream.len(), pos, buf.len());
    if n == 0 {
        stream
    } else {
        replace_range(stream, pos as int, (pos + n) as int, buf.subrange(0, n as int))
    }
}

/// A read or a write moves no more bytes than were asked for and none from
/// beyond the end of the stream; where fewer are left than were asked for,
/// it moves exactly those, and a write leaves the stream as long as it was.
pub proof fn lemma_short_transfer(stream: Seq<u8>, pos: nat, buf: Seq<u8>)
    ensures
        transfer(stream.len(), pos, buf.len()) <= buf.len(),
        pos <= stream.len() ==> pos + transfer(stream.len(), pos, buf.len()) <= stream.len(),
        pos <= stream.len() && stream.len() - pos < buf.len() ==> transfer(
            stream.len(),
            pos,
            buf.len(),
        ) == stream.len() - pos,
        pos > stream.len() ==> transfer(stream.len(), pos, buf.len()) == 0,
        read_into(stream, pos, buf).len() == buf.len(),
        written_at(stream, pos, buf).len() == stream.len(),
{
}

/// `base + offset`, held to the range of `u64`.
fn add_signed_saturating(base: u64, offset: i64) -> (sum: u64)
    ensures
        sum == saturating_offset(base as int, offset as int),
{
    if offset >= 0 {
        let forward = offset as u64;
        if base > u64::MAX - forward {
            u64::MAX
        } else {
            base + forward
        }
    } else {
        let back: u64 = (-(offset + 1)) as u64 + 1;
        if base < back {
            0
        } else {
            base - back
        }
    }
}

/// An image read and written as one flat stream of bytes, with a position
/// in it.
pub struct ImageCursor<I> {
    image: I,
    pos: u64,
}

impl<I> ImageCursor<I> {
    /// The image under the cursor.
    pub closed spec fn image(&self) -> I {
        self.image
    }

    /// The offset in the stream of the next byte to read or write.
    pub closed spec fn position(&self) -> u64 {
        self.pos
    }

    /// A cursor at the start of `image`.
    pub fn new(image: I) -> (cursor: Self)
        ensures
            cursor.image() == image,
            cursor.position() == 0,
    {
        Self { image, pos: 0 }
    }

    /// Gives the image back.
    pub fn into_image(self) -> (image: I)
        ensures
            image == self.image(),
    {
        self.image
    }
}

impl<I: Image> ImageCursor<I> {
    /// The bytes of the stream: those of the image's pixels.
    pub open spec fn stream(&self) -> Seq<u8> {
        self.image().bytes()
    }

    /// The total number of bytes that the image can hold.
    pub fn capacity(&self) -> (c: u64)
        ensures
            c == capacity_of(self.image()),
            is_packed(self.image()),
    {
        let w = self.image.width();
        let h = self.image.height();
        proof {
            I::lemma_pixel_size();
            assert(w * h <= w * h * I::BYTES_PER_PIXEL) by (nonlinear_arith)
                requires
                    I::BYTES_PER_PIXEL >= 1,
            ;
        }
        (w as u64) * (h as u64) * (I::BYTES_PER_PIXEL as u64)
    }

    /// The offset in the stream of the next byte to read or write.
    pub fn stream_position(&self) -> (pos: u64)
        ensures
            pos == self.position(),
    {
        self.pos
    }

    /// The pixel that holds byte `pos` of the stream and how far into the
    /// pixel the byte lies, or `None` where the stream has no such byte.
    fn xyrem_from_pos(&self, pos: u64) -> (xyr: Option<(u32, u32, u64)>)
        ensures
            is_packed(self.image()),
            xyr is Some <==> pos < capacity_of(self.image()),
            xyr is Some ==> ({
                let (x, y, r) = xyr.unwrap();
                &&& x < self.image().spec_width()
                &&& y < self.image().spec_height()
                &&& r < I::BYTES_PER_PIXEL
                &&& x == pixel_column(
                    pos as nat,
                    self.image().spec_width() * I::BYTES_PER_PIXEL as nat,
                    I::BYTES_PER_PIXEL as nat,
                )
                &&& y == pixel_row(
                    pos as nat,
                    self.image().spec_width() * I::BYTES_PER_PIXEL as nat,
                )
                &&& r == pixel_offset(
                    pos as nat,
                    self.image().spec_width() * I::BYTES_PER_PIXEL as nat,
                    I::BYTES_PER_PIXEL as nat,
                )
                &&& pixel_start(
                    self.image().spec_width(),
                    I::BYTES_PER_PIXEL as nat,
                    x as nat,
                    y as nat,
                ) + r == pos
            }),
    {
        let width = self.image.width();
        let height = self.image.height();
        proof {
            I::lemma_pixel_size();
        }
        if width == 0 {
            assert(capacity_of(self.image()) == 0) by (nonlinear_arith)
                requires
                    capacity_of(self.image()) == self.image().spec_width()
                        * self.image().spec_height() * I::BYTES_PER_PIXEL as nat,
                    self.image().spec_width() == 0,
            ;
            return None;
        }
        proof {
            assert(0 < width * I::BYTES_PER_PIXEL <= 0xffff_ffff * 16) by (nonlinear_arith)
                requires
                    0 < width <= 0xffff_ffff,
                    1 <= I::BYTES_PER_PIXEL <= 16,
            ;
            lemma_address(pos as nat, width as nat, I::BYTES_PER_PIXEL as nat);
            lemma_row_in_image(pos as nat, width as nat, height as nat, I::BYTES_PER_PIXEL as nat);
        }
        let (x, y, r) = xyrem_from_pos::<I>(pos, width as u64);
        if y >= height as u64 {
            return None;
        }
        Some((x as u32, y as u32, r))
    }

    /// Copies bytes of the pixel under the position into `buf`, from the
    /// position to the end of the pixel or until `buf` is full, and returns
    /// how many; `None` where the position is past the last pixel. The
    /// position stays.
    fn read_pixel_to_buf(&self, buf: &mut [u8]) -> (copied: Option<usize>)
        ensures
            is_packed(self.image()),
            copied is Some <==> self.position() < capacity_of(self.image()),
            copied is None ==> final(buf)@ == old(buf)@,
            copied is Some ==> copied.unwrap() == min_of(
                I::BYTES_PER_PIXEL - pixel_offset(
                    self.position() as nat,
                    self.image().spec_width() * I::BYTES_PER_PIXEL as nat,
                    I::BYTES_PER_PIXEL as nat,
                ),
                old(buf)@.len() as int,
            ),
            copied is Some ==> (copied.unwrap() == 0 <==> old(buf)@.len() == 0),
            copied is Some ==> self.position() + copied.unwrap() <= capacity_of(self.image()),
            copied is Some ==> final(buf)@ == self.stream().subrange(
                self.position() as int,
                self.position() + copied.unwrap(),
            ) + old(buf)@.subrange(copied.unwrap() as int, old(buf)@.len() as int),
    {
        let (pixel_x, pixel_y, pixel_offset) = match self.xyrem_from_pos(self.pos) {
            Some(xyr) => xyr,
            None => {
                return None;
            },
        };
        match self.image.get_pixel(pixel_x, pixel_y) {
            Some(pixel) => {
                let len = pixel.len();
                proof {
                    assert(len == pixel@.len());
                    lemma_pixel_in_bounds(
                        self.image().spec_width(),
                        self.image().spec_height(),
                        I::BYTES_PER_PIXEL as nat,
                        pixel_x as nat,
                        pixel_y as nat,
                    );
                }
                let unread_pixel = &pixel[pixel_offset as usize..len];
                let i = copy_min_len(unread_pixel, buf);
                proof {
                    assert(unread_pixel@.subrange(0, i as int) =~= self.stream().subrange(
                        self.position() as int,
                        self.position() + i,
                    ));
                }
                Some(i)
            },
            None => None,
        }
    }

    /// Copies bytes of `buf` into the pixel under the position, from the
    /// position to the end of the pixel or until `buf` is used up, and
    /// returns how many; `None` where the position is past the last pixel.
    /// The other bytes of the pixel and the position stay.
    fn write_buf_to_pixel(&mut self, buf: &[u8]) -> (written: Option<usize>)
        ensures
            is_packed(old(self).image()),
            final(self).position() == old(self).position(),
            final(self).image().spec_width() == old(self).image().spec_width(),
            final(self).image().spec_height() == old(self).image().spec_height(),
            written is Some <==> old(self).position() < capacity_of(old(self).image()),
            written is None ==> final(self).stream() == old(self).stream(),
            written is Some ==> written.unwrap() == min_of(
                I::BYTES_PER_PIXEL - pixel_offset(
                    old(self).position() as nat,
                    old(self).image().spec_width() * I::BYTES_PER_PIXEL as nat,
                    I::BYTES_PER_PIXEL as nat,
                ),
                buf@.len() as int,
            ),
            written is Some ==> (written.unwrap() == 0 <==> buf@.len() == 0),
            written is Some ==> old(self).position() + written.unwrap() <= capacity_of(
                old(self).image(),
            ),
            written is Some ==> final(self).stream() == replace_range(
                old(self).stream(),
                old(self).position() as int,
                old(self).position() + written.unwrap(),
                buf@.subrange(0, written.unwrap() as int),
            ),
    {
        let (pixel_x, pixel_y, pixel_offset) = match self.xyrem_from_pos(self.pos) {
            Some(xyr) => xyr,
            None => {
                return None;
            },
        };
        proof {
            lemma_pixel_in_bounds(
                self.image().spec_width(),
                self.image().spec_height(),
                I::BYTES_PER_PIXEL as nat,
                pixel_x as nat,
                pixel_y as nat,
            );
        }
        write_pixel(&mut self.image, pixel_x, pixel_y, buf, pixel_offset as usize)
    }

    /// Reads from the stream into `buf`, from the position on, until `buf`
    /// is full or the stream ends, and moves the position past what was
    /// read. Returns the number of bytes read.
    pub fn read(&mut self, buf: &mut [u8]) -> (n: usize)
        ensures
            is_packed(old(self).image()),
            final(self).image() == old(self).image(),
            n == transfer(old(self).stream().len(), old(self).position() as nat, old(buf)@.len()),
            final(self).position() == old(self).position() + n,
            final(buf)@ == read_into(old(self).stream(), old(self).position() as nat, old(buf)@),
    {
        let mut bytes_read: usize = 0;
        let ghost stream = self.stream();
        let ghost start = self.position() as int;
        loop
            invariant
                self.image() == old(self).image(),
                stream == self.stream(),
                start == old(self).position(),
                buf@.len() == old(buf)@.len(),
                bytes_read <= buf@.len(),
                self.position() == start + bytes_read,
                bytes_read > 0 ==> start + bytes_read <= stream.len(),
                bytes_read == 0 ==> buf@ == old(buf)@,
                bytes_read > 0 ==> buf@ == stream.subrange(start, start + bytes_read) + old(
                    buf,
                )@.subrange(bytes_read as int, old(buf)@.len() as int),
            ensures
                is_packed(self.image()),
                bytes_read == transfer(stream.len(), start as nat, old(buf)@.len()),
            decreases buf@.len() - bytes_read,
        {
            let (_, tail) = buf.split_at_mut(bytes_read);
            let i = match self.read_pixel_to_buf(tail) {
                Some(i) => i,
                None => {
                    break ;
                },
            };
            if i == 0 {
                break ;
            }
            proof {
                assert(buf@ =~= stream.subrange(start, start + bytes_read + i) + old(buf)@.subrange(
                    bytes_read + i,
                    old(buf)@.len() as int,
                ));
            }
            bytes_read += i;
            self.seek(SeekFrom::Current(i as i64));
        }
        bytes_read
    }

    /// Fills `buf` from the stream, or fails where the stream ends first;
    /// what could be read is in `buf` then, and the position is at the end.
    pub fn read_exact(&mut self, buf: &mut [u8]) -> (r: Result<(), Error>)
        ensures
            is_packed(old(self).image()),
            final(self).image() == old(self).image(),
            r is Ok <==> old(self).position() + old(buf)@.len() <= old(self).stream().len()
                || old(buf)@.len() == 0,
            r is Err ==> r == Err::<(), Error>(Error::UnexpectedEof),
            final(self).position() == old(self).position() + transfer(
                old(self).stream().len(),
                old(self).position() as nat,
                old(buf)@.len(),
            ),
            final(buf)@ == read_into(old(self).stream(), old(self).position() as nat, old(buf)@),
    {
        let n = self.read(buf);
        if n < buf.len() {
            Err(Error::UnexpectedEof)
        } else {
            Ok(())
        }
    }

    /// Writes `buf` to the stream, from the position on, until `buf` is
    /// used up or the stream ends, and moves the position past what was
    /// written. Returns the number of bytes written. No other byte of the
    /// image changes.
    pub fn write(&mut self, buf: &[u8]) -> (n: usize)
        ensures
            is_packed(old(self).image()),
            is_packed(final(self).image()),
            final(self).image().spec_width() == old(self).image().spec_width(),
            final(self).image().spec_height() == old(self).image().spec_height(),
            n == transfer(old(self).stream().len(), old(self).position() as nat, buf@.len()),
            final(self).position() == old(self).position() + n,
            final(self).stream() == written_at(
                old(self).stream(),
                old(self).position() as nat,
                buf@,
            ),
    {
        let mut bytes_written: usize = 0;
        let ghost stream = self.stream();
        let ghost start = self.position() as int;
        let len = buf.len();
        loop
            invariant
                self.image().spec_width() == old(self).image().spec_width(),
                self.image().spec_height() == old(self).image().spec_height(),
                stream == old(self).stream(),
                start == old(self).position(),
                len == buf@.len(),
                bytes_written <= len,
                self.position() == start + bytes_written,
                bytes_written > 0 ==> start + bytes_written <= stream.len(),
                bytes_written == 0 ==> self.stream() == stream,
                bytes_written > 0 ==> self.stream() == replace_range(
                    stream,
                    start,
                    start + bytes_written,
                    buf@.subrange(0, bytes_written as int),
                ),
            ensures
                is_packed(old(self).image()),
                is_packed(self.image()),
                bytes_written == transfer(stream.len(), start as nat, buf@.len()),
            decreases len - bytes_written,
        {
            let ghost before = self.stream();
            let i = match self.write_buf_to_pixel(&buf[bytes_written..len]) {
                Some(i) => i,
                None => {
                    break ;
                },
            };
            if i == 0 {
                break ;
            }
            proof {
                let chunk = buf@.subrange(bytes_written as int, len as int).subrange(0, i as int);
                let done = start + bytes_written;
                assert(replace_range(before, done, done + i, chunk) =~= replace_range(
                    stream,
                    start,
                    done + i,
                    buf@.subrange(0, bytes_written + i),
                ));
            }
            bytes_written += i;
            self.seek(SeekFrom::Current(i as i64));
        }
        bytes_written
    }

    /// Does nothing: every write has reached the image already.
    pub fn flush(&mut self)
        ensures
            *final(self) == *old(self),
    {
    }

    /// Moves the position: to an offset from the start, from the position
    /// or from the end of the stream. An offset that leads below zero or
    /// above what a `u64` holds stops there. The position may lie past the
    /// end of the stream. Returns the new position.
    pub fn seek(&mut self, pos: SeekFrom) -> (new_pos: u64)
        ensures
            final(self).image() == old(self).image(),
            final(self).position() == new_pos,
            new_pos == seek_target(old(self).position(), capacity_of(old(self).image()), pos),
    {
        match pos {
            SeekFrom::Start(offset) => {
                self.pos = offset;
                self.pos
            },
            SeekFrom::Current(offset) => {
                self.pos = add_signed_saturating(self.pos, offset);
                self.pos
            },
            SeekFrom::End(offset) => {
                self.pos = add_signed_saturating(self.capacity(), offset);
                self.pos
            },
        }
    }
}

} // verus!
