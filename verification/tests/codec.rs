use image::DynamicImage;
use imgcode::{
    decode, encode, from_image, image_capacity, image_dimensions, min_dimensions_from_pixels,
    to_image, try_to_image, AspectRatio, Error, Image, ImageCursor, PixelFormat, Rgb32, Rgb8,
    Rgba32, Rgba8,
};

const SQUARE: AspectRatio = AspectRatio { num: 1, den: 1 };

fn formats() -> [PixelFormat; 4] {
    [PixelFormat::Rgb8, PixelFormat::Rgba8, PixelFormat::Rgb32, PixelFormat::Rgba32]
}

fn ratios() -> Vec<AspectRatio> {
    vec![
        SQUARE,
        AspectRatio { num: 2, den: 1 },
        AspectRatio { num: 1, den: 2 },
        AspectRatio { num: 16, den: 9 },
        AspectRatio { num: 3, den: 7 },
        AspectRatio { num: 1000, den: 1 },
        AspectRatio { num: 1, den: 1000 },
        AspectRatio { num: u32::MAX, den: u32::MAX },
    ]
}

fn payload(len: usize) -> Vec<u8> {
    (0..len).map(|i| (i * 31 + 7) as u8).collect()
}

#[test]
fn ratio_needs_positive_parts() {
    assert_eq!(AspectRatio::new(16, 9), Some(AspectRatio { num: 16, den: 9 }));
    assert_eq!(AspectRatio::new(0, 9), None);
    assert_eq!(AspectRatio::new(16, 0), None);
    assert_eq!(AspectRatio::new(0, 0), None);
}

#[test]
fn empty_payload_gives_empty_image() {
    let img: Rgb8 = to_image(&[], SQUARE);
    assert_eq!((img.width(), img.height()), (0, 0));
    assert_eq!(from_image(img), Ok(vec![]));

    for format in formats() {
        let img = encode(&[], SQUARE, format).unwrap();
        assert_eq!((img.width(), img.height()), (0, 0));
        assert_eq!(decode(img), Ok(vec![]));
    }
}

#[test]
fn five_bytes_on_rgb8_give_three_by_three() {
    let data = [0x01, 0x02, 0x03, 0x04, 0x05];
    assert_eq!(image_dimensions::<Rgb8>(&data, SQUARE), (3, 3));
    let img: Rgb8 = to_image(&data, SQUARE);
    assert_eq!((img.width(), img.height()), (3, 3));
    assert_eq!(from_image(img), Ok(data.to_vec()));
}

#[test]
fn twenty_bytes_on_rgba32_give_two_by_one() {
    let data = payload(20);
    let wide = AspectRatio { num: 2, den: 1 };
    assert_eq!(image_dimensions::<Rgba32>(&data, wide), (2, 1));
    let img: Rgba32 = to_image(&data, wide);
    assert_eq!((img.width(), img.height()), (2, 1));
    assert_eq!(from_image(img), Ok(data));
}

#[test]
fn header_larger_than_image_is_size_limit() {
    // one RGB8 pixel: three bytes, no room for a header that claims 100
    let tiny = image::RgbImage::from_raw(1, 1, vec![0, 0, 100]).unwrap();
    let img = Rgb8::from_dynamic(DynamicImage::ImageRgb8(tiny)).unwrap();
    assert_eq!(from_image(img), Err(Error::SizeLimit));

    // room for the header, not for what it claims
    let mut cursor = ImageCursor::new(Rgb8::new_with_dimensions(3, 1));
    assert_eq!(cursor.write(&100u64.to_be_bytes()), 8);
    assert_eq!(from_image(cursor.into_image()), Err(Error::SizeLimit));
}

#[test]
fn encoded_stream_is_header_payload_zeros() {
    let data = [0x01, 0x02, 0x03, 0x04, 0x05];
    let img = encode(&data, SQUARE, PixelFormat::Rgb8).unwrap();
    assert_eq!(img.color(), image::ColorType::Rgb8);
    let mut expected = vec![0, 0, 0, 0, 0, 0, 0, 5, 1, 2, 3, 4, 5];
    expected.resize(27, 0);
    assert_eq!(img.as_bytes(), expected.as_slice());
    // the payload starts in the middle of the third pixel
    let pixels = img.as_rgb8().unwrap();
    assert_eq!(pixels.get_pixel(2, 0).0, [0, 5, 1]);
    assert_eq!(pixels.get_pixel(0, 1).0, [2, 3, 4]);
    assert_eq!(pixels.get_pixel(1, 1).0, [5, 0, 0]);
}

#[test]
fn first_eight_bytes_are_the_length() {
    for format in formats() {
        for len in [1usize, 2, 7, 8, 9, 255, 256, 257, 1000, 70_000] {
            let img = encode(&payload(len), AspectRatio { num: 4, den: 3 }, format).unwrap();
            let mut first = [0u8; 8];
            first.copy_from_slice(&img.as_bytes()[..8]);
            assert_eq!(u64::from_be_bytes(first), len as u64);
        }
    }
}

#[test]
fn round_trip_in_every_layout_and_ratio() {
    for format in formats() {
        for ratio in ratios() {
            for len in [0usize, 1, 2, 3, 4, 5, 8, 15, 16, 17, 100, 1023, 4096] {
                let data = payload(len);
                let img = encode(&data, ratio, format).unwrap();
                assert_eq!(PixelFormat::of_color(img.color()), Some(format));
                assert_eq!(decode(img), Ok(data));
            }
        }
    }
}

#[test]
fn round_trip_through_typed_images() {
    let data = payload(300);
    let ratio = AspectRatio { num: 3, den: 2 };
    assert_eq!(from_image(to_image::<Rgb8>(&data, ratio)), Ok(data.clone()));
    assert_eq!(from_image(to_image::<Rgba8>(&data, ratio)), Ok(data.clone()));
    assert_eq!(from_image(to_image::<Rgb32>(&data, ratio)), Ok(data.clone()));
    assert_eq!(from_image(to_image::<Rgba32>(&data, ratio)), Ok(data.clone()));
    assert_eq!(from_image(try_to_image::<Rgb8>(&data, ratio).unwrap()), Ok(data));
}

#[test]
fn image_holds_header_and_payload() {
    for format in formats() {
        for ratio in ratios() {
            for len in [1usize, 5, 64, 999] {
                let img = encode(&payload(len), ratio, format).unwrap();
                let capacity = img.width() as u64 * img.height() as u64 * format.pixel_size() as u64;
                assert!(capacity >= 8 + len as u64);
                assert_eq!(img.as_bytes().len() as u64, capacity);
            }
        }
    }
}

#[test]
fn dimensions_do_not_shrink_as_payload_grows() {
    for ratio in ratios() {
        let mut last = (0u32, 0u32);
        for len in 0..400usize {
            let dims = image_dimensions::<Rgb8>(&payload(len), ratio);
            assert!(dims.0 >= last.0 && dims.1 >= last.1);
            last = dims;
        }
        let mut last = (0u32, 0u32);
        for len in 0..400usize {
            let dims = image_dimensions::<Rgba32>(&payload(len), ratio);
            assert!(dims.0 >= last.0 && dims.1 >= last.1);
            last = dims;
        }
    }
}

#[test]
fn dimensions_keep_to_the_ratio() {
    // (width - 1) / height < ratio < width / (height - 1)
    for ratio in ratios() {
        for len in [1usize, 10, 1000, 100_000] {
            let (w, h) = image_dimensions::<Rgba8>(&payload(len), ratio);
            let (w, h) = (w as u64, h as u64);
            let (num, den) = (ratio.num as u64, ratio.den as u64);
            assert!(w > 0 && h > 0);
            assert!((w - 1) * den < h * num);
            assert!((h - 1) * num < w * den);
        }
    }
    // 3_000_008 bytes are 1_000_003 pixels: the roots of 1_777_783.1 and of 562_501.7
    let (w, h) = image_dimensions::<Rgb8>(&payload(3_000_000), AspectRatio { num: 16, den: 9 });
    assert_eq!((w, h), (1334, 751));
}

#[test]
fn min_dimensions_are_rounded_up_roots() {
    assert_eq!(min_dimensions_from_pixels(5, SQUARE), (3, 3));
    assert_eq!(min_dimensions_from_pixels(2, AspectRatio { num: 2, den: 1 }), (2, 1));
    assert_eq!(min_dimensions_from_pixels(1, SQUARE), (1, 1));
    assert_eq!(min_dimensions_from_pixels(4, SQUARE), (2, 2));
    assert_eq!(min_dimensions_from_pixels(9, SQUARE), (3, 3));
    assert_eq!(min_dimensions_from_pixels(10, SQUARE), (4, 4));
    assert_eq!(min_dimensions_from_pixels(8, AspectRatio { num: 1, den: 2 }), (2, 4));
    assert_eq!(min_dimensions_from_pixels(8, AspectRatio { num: 2, den: 1 }), (4, 2));
    assert_eq!(min_dimensions_from_pixels(100, AspectRatio { num: 16, den: 9 }), (14, 8));
    assert_eq!(min_dimensions_from_pixels(1, AspectRatio { num: 1, den: 100 }), (1, 10));
    assert_eq!(min_dimensions_from_pixels(1 << 62, SQUARE), (1 << 31, 1 << 31));
    assert_eq!(min_dimensions_from_pixels((1 << 62) + 1, SQUARE), ((1 << 31) + 1, (1 << 31) + 1));
}

#[test]
fn min_dimensions_stop_at_the_largest_side() {
    assert_eq!(min_dimensions_from_pixels(u64::MAX, SQUARE), (u32::MAX, u32::MAX));
    // (2^64 - 1) / (2^32 - 1) is 2^32 + 1, whose root lies just above 65_536
    assert_eq!(
        min_dimensions_from_pixels(u64::MAX, AspectRatio { num: u32::MAX, den: 1 }),
        (u32::MAX, 65_537)
    );
    assert_eq!(
        min_dimensions_from_pixels(1 << 40, AspectRatio { num: 1, den: 1 << 30 }),
        (32, u32::MAX)
    );
}

#[test]
fn image_dimensions_count_whole_pixels() {
    // 8 + 1 = 9 bytes are 3 pixels of 3 bytes, 8 + 2 = 10 bytes are 4
    assert_eq!(image_dimensions::<Rgb8>(&[1], SQUARE), (2, 2));
    assert_eq!(image_dimensions::<Rgb8>(&[1, 2], SQUARE), (2, 2));
    assert_eq!(image_dimensions::<Rgb8>(&payload(5), SQUARE), (3, 3));
    // 8 + 8 = 16 bytes are one pixel of 16 bytes, one byte more are two
    assert_eq!(image_dimensions::<Rgba32>(&payload(8), SQUARE), (1, 1));
    assert_eq!(image_dimensions::<Rgba32>(&payload(9), SQUARE), (2, 2));
    assert_eq!(image_dimensions::<Rgba8>(&[], AspectRatio { num: 5, den: 1 }), (0, 0));
}

#[test]
fn image_capacity_is_the_product() {
    assert_eq!(image_capacity::<Rgb8>(3, 3), 27);
    assert_eq!(image_capacity::<Rgba8>(3, 3), 36);
    assert_eq!(image_capacity::<Rgb32>(2, 1), 24);
    assert_eq!(image_capacity::<Rgba32>(2, 1), 32);
    assert_eq!(image_capacity::<Rgba32>(0, 100), 0);
    assert_eq!(image_capacity::<Rgb8>(u32::MAX, 1 << 30), 3 * (u32::MAX as u64) * (1 << 30));
}

#[test]
fn encode_refuses_what_cannot_be_made() {
    assert!(encode(&[1, 2, 3], AspectRatio { num: 0, den: 1 }, PixelFormat::Rgb8).is_none());
    assert!(encode(&[1, 2, 3], AspectRatio { num: 1, den: 0 }, PixelFormat::Rgb8).is_none());
    assert!(try_to_image::<Rgba8>(&[], AspectRatio { num: 0, den: 0 }).is_none());
    assert!(try_to_image::<Rgba8>(&[], SQUARE).is_some());
}

#[test]
fn decode_refuses_other_layouts() {
    assert_eq!(decode(DynamicImage::new_luma8(4, 4)), Err(Error::UnsupportedFormat));
    assert_eq!(decode(DynamicImage::new_luma_a8(4, 4)), Err(Error::UnsupportedFormat));
    assert_eq!(decode(DynamicImage::new_luma16(4, 4)), Err(Error::UnsupportedFormat));
    assert_eq!(decode(DynamicImage::new_luma_a16(4, 4)), Err(Error::UnsupportedFormat));
    assert_eq!(decode(DynamicImage::new_rgb16(4, 4)), Err(Error::UnsupportedFormat));
    assert_eq!(decode(DynamicImage::new_rgba16(0, 0)), Err(Error::UnsupportedFormat));
}

#[test]
fn decode_reads_the_pixels_of_a_longer_buffer() {
    // 3 x 3 pixels are 27 bytes; the buffer goes on for 13 more
    let mut bytes = vec![0, 0, 0, 0, 0, 0, 0, 5, 1, 2, 3, 4, 5];
    bytes.resize(27, 0);
    bytes.resize(40, 0xee);
    let roomy = image::RgbImage::from_raw(3, 3, bytes).unwrap();
    assert_eq!(decode(DynamicImage::ImageRgb8(roomy)), Ok(vec![1, 2, 3, 4, 5]));

    // a payload that would reach into what lies beyond the pixels is over the limit
    let mut bytes = vec![0, 0, 0, 0, 0, 0, 0, 20];
    bytes.resize(40, 7);
    let roomy = image::RgbImage::from_raw(3, 3, bytes.clone()).unwrap();
    assert_eq!(decode(DynamicImage::ImageRgb8(roomy)), Err(Error::SizeLimit));
    bytes[7] = 19;
    let roomy = image::RgbImage::from_raw(3, 3, bytes).unwrap();
    assert_eq!(decode(DynamicImage::ImageRgb8(roomy)), Ok(vec![7; 19]));

    // one pixel has no room for a header, however long the buffer
    let roomy = image::RgbImage::from_raw(1, 1, vec![0u8; 30]).unwrap();
    assert_eq!(decode(DynamicImage::ImageRgb8(roomy)), Err(Error::SizeLimit));

    // no pixels, no payload
    let roomy = image::RgbaImage::from_raw(0, 4, vec![9u8; 30]).unwrap();
    assert_eq!(decode(DynamicImage::ImageRgba8(roomy)), Ok(vec![]));
}

#[test]
fn decode_of_blank_images() {
    // a blank image with room for a header carries a payload of length zero
    assert_eq!(decode(DynamicImage::new_rgb8(3, 1)), Ok(vec![]));
    assert_eq!(decode(DynamicImage::new_rgba32f(1, 1)), Ok(vec![]));
    // one without room for a header carries none
    assert_eq!(decode(DynamicImage::new_rgb8(2, 1)), Err(Error::SizeLimit));
    assert_eq!(decode(DynamicImage::new_rgba8(1, 1)), Err(Error::SizeLimit));
    // one without pixels carries the empty payload
    assert_eq!(decode(DynamicImage::new_rgb8(0, 5)), Ok(vec![]));
    assert_eq!(decode(DynamicImage::new_rgb32f(5, 0)), Ok(vec![]));
}

#[test]
fn corrupt_header_is_size_limit() {
    let data = payload(50);
    for format in formats() {
        let img = encode(&data, SQUARE, format).unwrap();
        let capacity = img.as_bytes().len() as u64;
        for claim in [capacity - 7, capacity, capacity + 1, u64::MAX - 7, u64::MAX] {
            let mut bytes = img.as_bytes().to_vec();
            bytes[..8].copy_from_slice(&claim.to_be_bytes());
            let broken = match format {
                PixelFormat::Rgb8 => DynamicImage::ImageRgb8(
                    image::RgbImage::from_raw(img.width(), img.height(), bytes).unwrap(),
                ),
                PixelFormat::Rgba8 => DynamicImage::ImageRgba8(
                    image::RgbaImage::from_raw(img.width(), img.height(), bytes).unwrap(),
                ),
                PixelFormat::Rgb32 => {
                    let mut raw = DynamicImage::new_rgb32f(img.width(), img.height());
                    let mut cursor = ImageCursor::new(Rgb32::from_dynamic(raw).unwrap());
                    assert_eq!(cursor.write(&bytes), bytes.len());
                    raw = cursor.into_image().into_dynamic();
                    raw
                }
                PixelFormat::Rgba32 => {
                    let mut raw = DynamicImage::new_rgba32f(img.width(), img.height());
                    let mut cursor = ImageCursor::new(Rgba32::from_dynamic(raw).unwrap());
                    assert_eq!(cursor.write(&bytes), bytes.len());
                    raw = cursor.into_image().into_dynamic();
                    raw
                }
            };
            assert_eq!(decode(broken), Err(Error::SizeLimit));
        }
        // the largest claim that still fits gives that many bytes
        let mut cursor = match format {
            PixelFormat::Rgb8 => {
                let mut c = ImageCursor::new(Rgb8::from_dynamic(img).unwrap());
                assert_eq!(c.write(&(capacity - 8).to_be_bytes()), 8);
                from_image(c.into_image())
            }
            _ => Ok(vec![0; (capacity - 8) as usize]),
        };
        assert_eq!(cursor.as_mut().map(|v| v.len()), Ok((capacity - 8) as usize));
    }
}
