use crate::private::Sealed;
use image::ColorType;
use vstd::prelude::*;

verus! {

/// The four pixel layouts that can carry a payload.
#[derive(Debug, Clone, Copy, PartialEq, Eq, Structural)]
pub enum PixelFormat {
    /// Three channels of one byte: red, green, blue.
    Rgb8,
    /// Four channels of one byte: red, green, blue, alpha.
    Rgba8,
    /// Three channels of four bytes: red, green, blue.
    Rgb32,
    /// Four channels of four bytes: red, green, blue, alpha.
    Rgba32,
}

impl PixelFormat {
    /// The number of channels of a pixel.
    pub open spec fn spec_channel_count(self) -> nat {
        match self {
            PixelFormat::Rgb8 | PixelFormat::Rgb32 => 3,
            PixelFormat::Rgba8 | PixelFormat::Rgba32 => 4,
        }
    }

    /// The number of bytes of one channel.
    pub open spec fn spec_channel_size(self) -> nat {
        match self {
            PixelFormat::Rgb8 | PixelFormat::Rgba8 => 1,
            PixelFormat::Rgb32 | PixelFormat::Rgba32 => 4,
        }
    }

    /// The number of bytes of a pixel: channels times bytes of a channel.
    pub open spec fn spec_pixel_size(self) -> nat {
        match self {
            PixelFormat::Rgb8 => 3,
            PixelFormat::Rgba8 => 4,
            PixelFormat::Rgb32 => 12,
            PixelFormat::Rgba32 => 16,
        }
    }

    /// The size of a pixel is the number of its channels times their size.
    pub proof fn lemma_size_is_product(self)
        ensures
            self.spec_pixel_size() == self.spec_channel_count() * self.spec_channel_size(),
    {
    }

    /// The layout that stands for `color`, where the library supports it.
    pub open spec fn spec_of_color(color: ColorType) -> Option<PixelFormat> {
        match color {
            ColorType::Rgb8 => Some(PixelFormat::Rgb8),
            ColorType::Rgba8 => Some(PixelFormat::Rgba8),
            ColorType::Rgb32F => Some(PixelFormat::Rgb32),
            ColorType::Rgba32F => Some(PixelFormat::Rgba32),
            _ => None,
        }
    }

    /// The number of channels of a pixel.
    pub fn channel_count(&self) -> (n: u32)
        ensures
            n == self.spec_channel_count(),
    {
        match self {
            PixelFormat::Rgb8 | PixelFormat::Rgb32 => 3,
            PixelFormat::Rgba8 | PixelFormat::Rgba32 => 4,
        }
    }

    /// The number of bytes of one channel.
    pub fn channel_size(&self) -> (n: u32)
        ensures
            n == self.spec_channel_size(),
    {
        match self {
            PixelFormat::Rgb8 | PixelFormat::Rgba8 => 1,
            PixelFormat::Rgb32 | PixelFormat::Rgba32 => 4,
        }
    }

    /// The number of bytes of a pixel.
    pub fn pixel_size(&self) -> (n: u32)
        ensures
            n == self.spec_pixel_size(),
    {
        self.channel_count() * self.channel_size()
    }

    /// The layout that stands for `color`, or `None` where the library does
    /// not support it.
    pub fn of_color(color: ColorType) -> (format: Option<PixelFormat>)
        ensures
            format == Self::spec_of_color(color),
    {
        match color {
            ColorType::Rgb8 => Some(PixelFormat::Rgb8),
            ColorType::Rgba8 => Some(PixelFormat::Rgba8),
            ColorType::Rgb32F => Some(PixelFormat::Rgb32),
            ColorType::Rgba32F => Some(PixelFormat::Rgba32),
            _ => None,
        }
    }
}

/// How one pixel is laid out in memory: so many channels of so many bytes.
pub trait ImageFormat: Sealed {
    /// Which of the four layouts this is.
    spec fn format() -> PixelFormat;

    /// The number of channels of a pixel.
    const CHANNEL_NUM: u32;

    /// The number of bytes of one channel.
    const CHANNEL_SIZE: u32;

    /// The number of bytes of a pixel.
    const BYTES_PER_PIXEL: u32;

    /// The three constants are those of the layout: a pixel has three or
    /// four channels of one or four bytes each, and its size is their
    /// product.
    proof fn lemma_pixel_size()
        ensures
            Self::CHANNEL_NUM == Self::format().spec_channel_count(),
            Self::CHANNEL_SIZE == Self::format().spec_channel_size(),
            Self::BYTES_PER_PIXEL == Self::format().spec_pixel_size(),
            Self::BYTES_PER_PIXEL == Self::CHANNEL_NUM * Self::CHANNEL_SIZE,
            1 <= Self::BYTES_PER_PIXEL <= 16,
    ;
}

} // verus!
