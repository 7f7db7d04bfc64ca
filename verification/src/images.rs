//! The four kinds of image that can carry a payload.
//!
//! Each wraps an `image::DynamicImage` of one pixel layout whose sample
//! buffer holds all its pixels. The bytes of the image are those of its
//! pixels; a buffer that is longer than they need is taken as it is, and
//! what lies beyond the pixels is never read or written.

use crate::format::{ImageFormat, PixelFormat};
use crate::private::Sealed;
use crate::raster::{
    height_of, pixel_stream, raster_bytes, raster_color, raster_height, raster_width,
    rgb32_bytes_mut, rgb8_bytes_mut, rgba32_bytes_mut, rgba8_bytes_mut, width_of,
};
use crate::traits::{
    lemma_pixel_in_front, lemma_pixel_in_prefix, pixel_of, pixel_of_mut, Image,
};
use image::ColorType;
use image::DynamicImage;
use vstd::prelude::*;

verus! {

/// Whether the sample buffer of `img` holds all its pixels of `pixel_size`
/// bytes.
fn holds_pixels(img: &DynamicImage, pixel_size: u32) -> (b: bool)
    ensures
        b <==> raster_bytes(*img).len() >= raster_width(*img) * raster_height(*img) * pixel_size,
        raster_bytes(*img).len() <= usize::MAX,
{
    let w = width_of(img);
    let h = height_of(img);
    let bytes = img.as_bytes();
    let len = bytes.len();
    proof {
        assert(len == bytes@.len());
        assert(w * h <= 0xffff_ffff * 0xffff_ffff) by (nonlinear_arith)
            requires
                w <= 0xffff_ffff,
                h <= 0xffff_ffff,
        ;
        assert(w * h * pixel_size <= 0xffff_ffff * 0xffff_ffff * 0xffff_ffff) by (nonlinear_arith)
            requires
                0 <= w * h <= 0xffff_ffff * 0xffff_ffff,
                pixel_size <= 0xffff_ffff,
        ;
    }
    len as u128 >= (w as u128) * (h as u128) * (pixel_size as u128)
}

/// An image of pixels of three 8-bit channels: red, green, blue.
pub struct Rgb8 {
    image: DynamicImage,
}

impl Rgb8 {
    #[verifier::type_invariant]
    spec fn well_formed(self) -> bool {
        &&& raster_color(self.image) == ColorType::Rgb8
        &&& raster_width(self.image) * raster_height(self.image) * 3 <= raster_bytes(
            self.image,
        ).len()
        &&& raster_bytes(self.image).len() <= usize::MAX
    }

    /// The buffer that the image wraps.
    pub closed spec fn dynamic(self) -> DynamicImage {
        self.image
    }

    /// Takes `img` as an RGB8 image; `None` where it has another layout, or
    /// a buffer too short for its pixels.
    pub fn from_dynamic(img: DynamicImage) -> (r: Option<Self>)
        ensures
            r is Some <==> raster_color(img) == ColorType::Rgb8 && raster_bytes(img).len()
                >= raster_width(img) * raster_height(img) * 3,
            r is Some ==> r.unwrap().dynamic() == img,
    {
        match img.color() {
            ColorType::Rgb8 => {
                if holds_pixels(&img, 3) {
                    Some(Rgb8 { image: img })
                } else {
                    None
                }
            },
            _ => None,
        }
    }

    /// Gives the buffer back: one of this layout, which holds all its
    /// pixels.
    pub fn into_dynamic(self) -> (img: DynamicImage)
        ensures
            img == self.dynamic(),
            raster_color(img) == ColorType::Rgb8,
            raster_bytes(img).len() >= raster_width(img) * raster_height(img) * 3,
    {
        proof {
            use_type_invariant(&self);
        }
        self.image
    }

    /// How the image's model is read off the buffer it wraps.
    pub proof fn lemma_dynamic(self)
        ensures
            self.spec_width() == raster_width(self.dynamic()),
            self.spec_height() == raster_height(self.dynamic()),
            self.bytes() == pixel_stream(self.dynamic(), 3),
    {
    }
}

impl Sealed for Rgb8 {

}

impl ImageFormat for Rgb8 {
    open spec fn format() -> PixelFormat {
        PixelFormat::Rgb8
    }

    const CHANNEL_NUM: u32 = 3;

    const CHANNEL_SIZE: u32 = 1;

    const BYTES_PER_PIXEL: u32 = 3;

    proof fn lemma_pixel_size() {
    }
}

impl Image for Rgb8 {
    closed spec fn spec_width(&self) -> nat {
        raster_width(self.image)
    }

    closed spec fn spec_height(&self) -> nat {
        raster_height(self.image)
    }

    closed spec fn bytes(&self) -> Seq<u8> {
        pixel_stream(self.image, 3)
    }

    fn new_with_dimensions(x: u32, y: u32) -> (img: Self) {
        let image = DynamicImage::new_rgb8(x, y);
        assert(pixel_stream(image, 3) =~= raster_bytes(image));
        Rgb8 { image }
    }

    fn width(&self) -> (w: u32) {
        proof {
            use_type_invariant(self);
        }
        width_of(&self.image)
    }

    fn height(&self) -> (h: u32) {
        proof {
            use_type_invariant(self);
        }
        height_of(&self.image)
    }

    fn get_pixel(&self, x: u32, y: u32) -> (pixel: Option<&[u8]>) {
        proof {
            use_type_invariant(self);
        }
        let w = width_of(&self.image);
        let h = height_of(&self.image);
        let bytes = self.image.as_bytes();
        assert(bytes.len() == bytes@.len());
        let pixel = pixel_of(bytes, w, h, 3, x, y);
        proof {
            if x < w && y < h {
                lemma_pixel_in_front(bytes@, w as nat, h as nat, 3, x as nat, y as nat);
            }
        }
        pixel
    }

    fn get_pixel_mut(&mut self, x: u32, y: u32) -> (pixel: Option<&mut [u8]>) {
        proof {
            use_type_invariant(&*self);
        }
        let w = width_of(&self.image);
        let h = height_of(&self.image);
        match rgb8_bytes_mut(&mut self.image) {
            Some(bytes) => {
                assert(bytes.len() == bytes@.len());
                let ghost whole = bytes@;
                let ghost after = final(bytes)@;
                let pixel = pixel_of_mut(bytes, w, h, 3, x, y);
                proof {
                    if x < w && y < h {
                        lemma_pixel_in_prefix(
                            whole,
                            after,
                            w as nat,
                            h as nat,
                            3,
                            x as nat,
                            y as nat,
                            final(pixel.unwrap())@,
                        );
                    }
                }
                pixel
            },
            None => None,
        }
    }
}

/// An image of pixels of four 8-bit channels: red, green, blue, alpha.
pub struct Rgba8 {
    image: DynamicImage,
}

impl Rgba8 {
    #[verifier::type_invariant]
    spec fn well_formed(self) -> bool {
        &&& raster_color(self.image) == ColorType::Rgba8
        &&& raster_width(self.image) * raster_height(self.image) * 4 <= raster_bytes(
            self.image,
        ).len()
        &&& raster_bytes(self.image).len() <= usize::MAX
    }

    /// The buffer that the image wraps.
    pub closed spec fn dynamic(self) -> DynamicImage {
        self.image
    }

    /// Takes `img` as an RGBA8 image; `None` where it has another layout, or
    /// a buffer too short for its pixels.
    pub fn from_dynamic(img: DynamicImage) -> (r: Option<Self>)
        ensures
            r is Some <==> raster_color(img) == ColorType::Rgba8 && raster_bytes(img).len()
                >= raster_width(img) * raster_height(img) * 4,
            r is Some ==> r.unwrap().dynamic() == img,
    {
        match img.color() {
            ColorType::Rgba8 => {
                if holds_pixels(&img, 4) {
                    Some(Rgba8 { image: img })
                } else {
                    None
                }
            },
            _ => None,
        }
    }

    /// Gives the buffer back: one of this layout, which holds all its
    /// pixels.
    pub fn into_dynamic(self) -> (img: DynamicImage)
        ensures
            img == self.dynamic(),
            raster_color(img) == ColorType::Rgba8,
            raster_bytes(img).len() >= raster_width(img) * raster_height(img) * 4,
    {
        proof {
            use_type_invariant(&self);
        }
        self.image
    }

    /// How the image's model is read off the buffer it wraps.
    pub proof fn lemma_dynamic(self)
        ensures
            self.spec_width() == raster_width(self.dynamic()),
            self.spec_height() == raster_height(self.dynamic()),
            self.bytes() == pixel_stream(self.dynamic(), 4),
    {
    }
}

impl Sealed for Rgba8 {

}

impl ImageFormat for Rgba8 {
    open spec fn format() -> PixelFormat {
        PixelFormat::Rgba8
    }

    const CHANNEL_NUM: u32 = 4;

    const CHANNEL_SIZE: u32 = 1;

    const BYTES_PER_PIXEL: u32 = 4;

    proof fn lemma_pixel_size() {
    }
}

impl Image for Rgba8 {
    closed spec fn spec_width(&self) -> nat {
        raster_width(self.image)
    }

    closed spec fn spec_height(&self) -> nat {
        raster_height(self.image)
    }

    closed spec fn bytes(&self) -> Seq<u8> {
        pixel_stream(self.image, 4)
    }

    fn new_with_dimensions(x: u32, y: u32) -> (img: Self) {
        let image = DynamicImage::new_rgba8(x, y);
        assert(pixel_stream(image, 4) =~= raster_bytes(image));
        Rgba8 { image }
    }

    fn width(&self) -> (w: u32) {
        proof {
            use_type_invariant(self);
        }
        width_of(&self.image)
    }

    fn height(&self) -> (h: u32) {
        proof {
            use_type_invariant(self);
        }
        height_of(&self.image)
    }

    fn get_pixel(&self, x: u32, y: u32) -> (pixel: Option<&[u8]>) {
        proof {
            use_type_invariant(self);
        }
        let w = width_of(&self.image);
        let h = height_of(&self.image);
        let bytes = self.image.as_bytes();
        assert(bytes.len() == bytes@.len());
        let pixel = pixel_of(bytes, w, h, 4, x, y);
        proof {
            if x < w && y < h {
                lemma_pixel_in_front(bytes@, w as nat, h as nat, 4, x as nat, y as nat);
            }
        }
        pixel
    }

    fn get_pixel_mut(&mut self, x: u32, y: u32) -> (pixel: Option<&mut [u8]>) {
        proof {
            use_type_invariant(&*self);
        }
        let w = width_of(&self.image);
        let h = height_of(&self.image);
        match rgba8_bytes_mut(&mut self.image) {
            Some(bytes) => {
                assert(bytes.len() == bytes@.len());
                let ghost whole = bytes@;
                let ghost after = final(bytes)@;
                let pixel = pixel_of_mut(bytes, w, h, 4, x, y);
                proof {
                    if x < w && y < h {
                        lemma_pixel_in_prefix(
                            whole,
                            after,
                            w as nat,
                            h as nat,
                            4,
                            x as nat,
                            y as nat,
                            final(pixel.unwrap())@,
                        );
                    }
                }
                pixel
            },
            None => None,
        }
    }
}

/// An image of pixels of three 32-bit channels: red, green, blue. The library
/// treats a channel as four raw bytes and never as a number.
pub struct Rgb32 {
    image: DynamicImage,
}

impl Rgb32 {
    #[verifier::type_invariant]
    spec fn well_formed(self) -> bool {
        &&& raster_color(self.image) == ColorType::Rgb32F
        &&& raster_width(self.image) * raster_height(self.image) * 12 <= raster_bytes(
            self.image,
        ).len()
        &&& raster_bytes(self.image).len() <= usize::MAX
    }

    /// The buffer that the image wraps.
    pub closed spec fn dynamic(self) -> DynamicImage {
        self.image
    }

    /// Takes `img` as an RGB32F image; `None` where it has another layout, or
    /// a buffer too short for its pixels.
    pub fn from_dynamic(img: DynamicImage) -> (r: Option<Self>)
        ensures
            r is Some <==> raster_color(img) == ColorType::Rgb32F && raster_bytes(img).len()
                >= raster_width(img) * raster_height(img) * 12,
            r is Some ==> r.unwrap().dynamic() == img,
    {
        match img.color() {
            ColorType::Rgb32F => {
                if holds_pixels(&img, 12) {
                    Some(Rgb32 { image: img })
                } else {
                    None
                }
            },
            _ => None,
        }
    }

    /// Gives the buffer back: one of this layout, which holds all its
    /// pixels.
    pub fn into_dynamic(self) -> (img: DynamicImage)
        ensures
            img == self.dynamic(),
            raster_color(img) == ColorType::Rgb32F,
            raster_bytes(img).len() >= raster_width(img) * raster_height(img) * 12,
    {
        proof {
            use_type_invariant(&self);
        }
        self.image
    }

    /// How the image's model is read off the buffer it wraps.
    pub proof fn lemma_dynamic(self)
        ensures
            self.spec_width() == raster_width(self.dynamic()),
            self.spec_height() == raster_height(self.dynamic()),
            self.bytes() == pixel_stream(self.dynamic(), 12),
    {
    }
}

impl Sealed for Rgb32 {

}

impl ImageFormat for Rgb32 {
    open spec fn format() -> PixelFormat {
        PixelFormat::Rgb32
    }

    const CHANNEL_NUM: u32 = 3;

    const CHANNEL_SIZE: u32 = 4;

    const BYTES_PER_PIXEL: u32 = 12;

    proof fn lemma_pixel_size() {
    }
}

impl Image for Rgb32 {
    closed spec fn spec_width(&self) -> nat {
        raster_width(self.image)
    }

    closed spec fn spec_height(&self) -> nat {
        raster_height(self.image)
    }

    closed spec fn bytes(&self) -> Seq<u8> {
        pixel_stream(self.image, 12)
    }

    fn new_with_dimensions(x: u32, y: u32) -> (img: Self) {
        let image = DynamicImage::new_rgb32f(x, y);
        assert(pixel_stream(image, 12) =~= raster_bytes(image));
        Rgb32 { image }
    }

    fn width(&self) -> (w: u32) {
        proof {
            use_type_invariant(self);
        }
        width_of(&self.image)
    }

    fn height(&self) -> (h: u32) {
        proof {
            use_type_invariant(self);
        }
        height_of(&self.image)
    }

    fn get_pixel(&self, x: u32, y: u32) -> (pixel: Option<&[u8]>) {
        proof {
            use_type_invariant(self);
        }
        let w = width_of(&self.image);
        let h = height_of(&self.image);
        let bytes = self.image.as_bytes();
        assert(bytes.len() == bytes@.len());
        let pixel = pixel_of(bytes, w, h, 12, x, y);
        proof {
            if x < w && y < h {
                lemma_pixel_in_front(bytes@, w as nat, h as nat, 12, x as nat, y as nat);
            }
        }
        pixel
    }

    fn get_pixel_mut(&mut self, x: u32, y: u32) -> (pixel: Option<&mut [u8]>) {
        proof {
            use_type_invariant(&*self);
        }
        let w = width_of(&self.image);
        let h = height_of(&self.image);
        match rgb32_bytes_mut(&mut self.image) {
            Some(bytes) => {
                assert(bytes.len() == bytes@.len());
                let ghost whole = bytes@;
                let ghost after = final(bytes)@;
                let pixel = pixel_of_mut(bytes, w, h, 12, x, y);
                proof {
                    if x < w && y < h {
                        lemma_pixel_in_prefix(
                            whole,
                            after,
                            w as nat,
                            h as nat,
                            12,
                            x as nat,
                            y as nat,
                            final(pixel.unwrap())@,
                        );
                    }
                }
                pixel
            },
            None => None,
        }
    }
}

/// An image of pixels of four 32-bit channels: red, green, blue, alpha. The
/// library treats a channel as four raw bytes and never as a number.
pub struct Rgba32 {
    image: DynamicImage,
}

impl Rgba32 {
    #[verifier::type_invariant]
    spec fn well_formed(self) -> bool {
        &&& raster_color(self.image) == ColorType::Rgba32F
        &&& raster_width(self.image) * raster_height(self.image) * 16 <= raster_bytes(
            self.image,
        ).len()
        &&& raster_bytes(self.image).len() <= usize::MAX
    }

    /// The buffer that the image wraps.
    pub closed spec fn dynamic(self) -> DynamicImage {
        self.image
    }

    /// Takes `img` as an RGBA32F image; `None` where it has another layout, or
    /// a buffer too short for its pixels.
    pub fn from_dynamic(img: DynamicImage) -> (r: Option<Self>)
        ensures
            r is Some <==> raster_color(img) == ColorType::Rgba32F && raster_bytes(img).len()
                >= raster_width(img) * raster_height(img) * 16,
            r is Some ==> r.unwrap().dynamic() == img,
    {
        match img.color() {
            ColorType::Rgba32F => {
                if holds_pixels(&img, 16) {
                    Some(Rgba32 { image: img })
                } else {
                    None
                }
            },
            _ => None,
        }
    }

    /// Gives the buffer back: one of this layout, which holds all its
    /// pixels.
    pub fn into_dynamic(self) -> (img: DynamicImage)
        ensures
            img == self.dynamic(),
            raster_color(img) == ColorType::Rgba32F,
            raster_bytes(img).len() >= raster_width(img) * raster_height(img) * 16,
    {
        proof {
            use_type_invariant(&self);
        }
        self.image
    }

    /// How the image's model is read off the buffer it wraps.
    pub proof fn lemma_dynamic(self)
        ensures
            self.spec_width() == raster_width(self.dynamic()),
            self.spec_height() == raster_height(self.dynamic()),
            self.bytes() == pixel_stream(self.dynamic(), 16),
    {
    }
}

impl Sealed for Rgba32 {

}

impl ImageFormat for Rgba32 {
    open spec fn format() -> PixelFormat {
        PixelFormat::Rgba32
    }

    const CHANNEL_NUM: u32 = 4;

    const CHANNEL_SIZE: u32 = 4;

    const BYTES_PER_PIXEL: u32 = 16;

    proof fn lemma_pixel_size() {
    }
}

impl Image for Rgba32 {
    closed spec fn spec_width(&self) -> nat {
        raster_width(self.image)
    }

    closed spec fn spec_height(&self) -> nat {
        raster_height(self.image)
    }

    closed spec fn bytes(&self) -> Seq<u8> {
        pixel_stream(self.image, 16)
    }

    fn new_with_dimensions(x: u32, y: u32) -> (img: Self) {
        let image = DynamicImage::new_rgba32f(x, y);
        assert(pixel_stream(image, 16) =~= raster_bytes(image));
        Rgba32 { image }
    }

    fn width(&self) -> (w: u32) {
        proof {
            use_type_invariant(self);
        }
        width_of(&self.image)
    }

    fn height(&self) -> (h: u32) {
        proof {
            use_type_invariant(self);
        }
        height_of(&self.image)
    }

    fn get_pixel(&self, x: u32, y: u32) -> (pixel: Option<&[u8]>) {
        proof {
            use_type_invariant(self);
        }
        let w = width_of(&self.image);
        let h = height_of(&self.image);
        let bytes = self.image.as_bytes();
        assert(bytes.len() == bytes@.len());
        let pixel = pixel_of(bytes, w, h, 16, x, y);
        proof {
            if x < w && y < h {
                lemma_pixel_in_front(bytes@, w as nat, h as nat, 16, x as nat, y as nat);
            }
        }
        pixel
    }

    fn get_pixel_mut(&mut self, x: u32, y: u32) -> (pixel: Option<&mut [u8]>) {
        proof {
            use_type_invariant(&*self);
        }
        let w = width_of(&self.image);
        let h = height_of(&self.image);
        match rgba32_bytes_mut(&mut self.image) {
            Some(bytes) => {
                assert(bytes.len() == bytes@.len());
                let ghost whole = bytes@;
                let ghost after = final(bytes)@;
                let pixel = pixel_of_mut(bytes, w, h, 16, x, y);
                proof {
                    if x < w && y < h {
                        lemma_pixel_in_prefix(
                            whole,
                            after,
                            w as nat,
                            h as nat,
                            16,
                            x as nat,
                            y as nat,
                            final(pixel.unwrap())@,
                        );
                    }
                }
                pixel
            },
            None => None,
        }
    }
}

} // verus!
