use image::{ColorType, DynamicImage};
use imgcode::util::{copy_min_len, xyrem_from_pos};
use imgcode::{Image, ImageFormat, PixelFormat, Rgb32, Rgb8, Rgba32, Rgba8};

#[test]
fn new_images_are_blank() {
    let img = Rgb8::new_with_dimensions(4, 3);
    assert_eq!(img.width(), 4);
    assert_eq!(img.height(), 3);
    let raw = img.into_dynamic();
    assert_eq!(raw.color(), ColorType::Rgb8);
    assert_eq!((raw.width(), raw.height()), (4, 3));
    assert_eq!(raw.as_bytes(), vec![0u8; 36].as_slice());

    let raw = Rgba8::new_with_dimensions(2, 5).into_dynamic();
    assert_eq!(raw.color(), ColorType::Rgba8);
    assert_eq!(raw.as_bytes(), vec![0u8; 40].as_slice());

    let raw = Rgb32::new_with_dimensions(2, 5).into_dynamic();
    assert_eq!(raw.color(), ColorType::Rgb32F);
    assert_eq!(raw.as_bytes(), vec![0u8; 120].as_slice());

    let raw = Rgba32::new_with_dimensions(3, 1).into_dynamic();
    assert_eq!(raw.color(), ColorType::Rgba32F);
    assert_eq!((raw.width(), raw.height()), (3, 1));
    assert_eq!(raw.as_bytes(), vec![0u8; 48].as_slice());
}

#[test]
fn pixel_sizes() {
    assert_eq!((Rgb8::CHANNEL_NUM, Rgb8::CHANNEL_SIZE, Rgb8::BYTES_PER_PIXEL), (3, 1, 3));
    assert_eq!((Rgba8::CHANNEL_NUM, Rgba8::CHANNEL_SIZE, Rgba8::BYTES_PER_PIXEL), (4, 1, 4));
    assert_eq!((Rgb32::CHANNEL_NUM, Rgb32::CHANNEL_SIZE, Rgb32::BYTES_PER_PIXEL), (3, 4, 12));
    assert_eq!((Rgba32::CHANNEL_NUM, Rgba32::CHANNEL_SIZE, Rgba32::BYTES_PER_PIXEL), (4, 4, 16));

    for format in [PixelFormat::Rgb8, PixelFormat::Rgba8, PixelFormat::Rgb32, PixelFormat::Rgba32] {
        assert_eq!(format.pixel_size(), format.channel_count() * format.channel_size());
    }
    assert_eq!(PixelFormat::Rgb8.pixel_size(), 3);
    assert_eq!(PixelFormat::Rgba8.pixel_size(), 4);
    assert_eq!(PixelFormat::Rgb32.pixel_size(), 12);
    assert_eq!(PixelFormat::Rgba32.pixel_size(), 16);
}

#[test]
fn formats_of_colors() {
    assert_eq!(PixelFormat::of_color(ColorType::Rgb8), Some(PixelFormat::Rgb8));
    assert_eq!(PixelFormat::of_color(ColorType::Rgba8), Some(PixelFormat::Rgba8));
    assert_eq!(PixelFormat::of_color(ColorType::Rgb32F), Some(PixelFormat::Rgb32));
    assert_eq!(PixelFormat::of_color(ColorType::Rgba32F), Some(PixelFormat::Rgba32));
    for other in [
        ColorType::L8,
        ColorType::La8,
        ColorType::L16,
        ColorType::La16,
        ColorType::Rgb16,
        ColorType::Rgba16,
    ] {
        assert_eq!(PixelFormat::of_color(other), None);
    }
}

#[test]
fn images_take_only_their_own_layout() {
    let rgb = || DynamicImage::new_rgb8(2, 2);
    let rgba = || DynamicImage::new_rgba8(2, 2);
    let rgb32 = || DynamicImage::new_rgb32f(2, 2);
    let rgba32 = || DynamicImage::new_rgba32f(2, 2);

    assert!(Rgb8::from_dynamic(rgb()).is_some());
    assert!(Rgb8::from_dynamic(rgba()).is_none());
    assert!(Rgb8::from_dynamic(rgb32()).is_none());
    assert!(Rgb8::from_dynamic(DynamicImage::new_luma8(2, 2)).is_none());
    assert!(Rgb8::from_dynamic(DynamicImage::new_rgb16(2, 2)).is_none());

    assert!(Rgba8::from_dynamic(rgba()).is_some());
    assert!(Rgba8::from_dynamic(rgb()).is_none());
    assert!(Rgba8::from_dynamic(DynamicImage::new_luma_a16(2, 2)).is_none());

    assert!(Rgb32::from_dynamic(rgb32()).is_some());
    assert!(Rgb32::from_dynamic(rgba32()).is_none());
    assert!(Rgb32::from_dynamic(rgb()).is_none());

    assert!(Rgba32::from_dynamic(rgba32()).is_some());
    assert!(Rgba32::from_dynamic(rgb32()).is_none());
    assert!(Rgba32::from_dynamic(DynamicImage::new_rgba16(2, 2)).is_none());
}

#[test]
fn images_take_buffers_longer_than_their_pixels() {
    let exact = image::RgbImage::from_raw(1, 1, vec![7u8; 3]).unwrap();
    let img = Rgb8::from_dynamic(DynamicImage::ImageRgb8(exact)).unwrap();
    assert_eq!(img.get_pixel(0, 0), Some(&[7u8, 7, 7][..]));

    // two pixels in a buffer of eleven bytes: the last five belong to none
    let roomy = image::RgbImage::from_raw(2, 1, (1..=11).collect()).unwrap();
    let mut img = Rgb8::from_dynamic(DynamicImage::ImageRgb8(roomy)).unwrap();
    assert_eq!((img.width(), img.height()), (2, 1));
    assert_eq!(img.get_pixel(0, 0), Some(&[1u8, 2, 3][..]));
    assert_eq!(img.get_pixel(1, 0), Some(&[4u8, 5, 6][..]));
    assert_eq!(img.get_pixel(2, 0), None);
    assert_eq!(img.get_pixel(0, 1), None);
    assert!(img.get_pixel_mut(0, 1).is_none());
    img.get_pixel_mut(1, 0).unwrap()[2] = 0xaa;
    assert_eq!(img.into_dynamic().as_bytes(), &[1, 2, 3, 4, 5, 0xaa, 7, 8, 9, 10, 11]);

    let roomy = image::Rgba32FImage::from_raw(1, 1, vec![1.0; 9]).unwrap();
    let img = Rgba32::from_dynamic(DynamicImage::ImageRgba32F(roomy)).unwrap();
    assert_eq!(img.get_pixel(0, 0).map(|p| p.len()), Some(16));
    assert_eq!(img.get_pixel(1, 0), None);
    assert_eq!(img.get_pixel(0, 1), None);
}

#[test]
fn get_pixel_finds_the_pixel() {
    let mut raw = image::RgbaImage::new(3, 2);
    raw.put_pixel(0, 0, image::Rgba([1, 2, 3, 4]));
    raw.put_pixel(2, 0, image::Rgba([5, 6, 7, 8]));
    raw.put_pixel(1, 1, image::Rgba([9, 10, 11, 12]));
    let img = Rgba8::from_dynamic(DynamicImage::ImageRgba8(raw)).unwrap();
    assert_eq!(img.width(), 3);
    assert_eq!(img.height(), 2);
    assert_eq!(img.get_pixel(0, 0), Some(&[1u8, 2, 3, 4][..]));
    assert_eq!(img.get_pixel(2, 0), Some(&[5u8, 6, 7, 8][..]));
    assert_eq!(img.get_pixel(1, 1), Some(&[9u8, 10, 11, 12][..]));
    assert_eq!(img.get_pixel(1, 0), Some(&[0u8, 0, 0, 0][..]));
    assert_eq!(img.get_pixel(3, 0), None);
    assert_eq!(img.get_pixel(0, 2), None);
    assert_eq!(img.get_pixel(u32::MAX, u32::MAX), None);
}

#[test]
fn get_pixel_of_float_image_gives_its_bytes() {
    let mut raw = image::Rgb32FImage::new(2, 1);
    raw.put_pixel(1, 0, image::Rgb([1.5, -2.0, 0.25]));
    let img = Rgb32::from_dynamic(DynamicImage::ImageRgb32F(raw)).unwrap();
    let mut expected = Vec::new();
    expected.extend_from_slice(&1.5f32.to_ne_bytes());
    expected.extend_from_slice(&(-2.0f32).to_ne_bytes());
    expected.extend_from_slice(&0.25f32.to_ne_bytes());
    assert_eq!(img.get_pixel(1, 0), Some(expected.as_slice()));
    assert_eq!(img.get_pixel(0, 0), Some(&[0u8; 12][..]));
    assert_eq!(img.get_pixel(2, 0), None);
}

#[test]
fn get_pixel_mut_writes_the_pixel() {
    let mut img = Rgb8::new_with_dimensions(2, 2);
    {
        let pixel = img.get_pixel_mut(1, 1).unwrap();
        assert_eq!(pixel.len(), 3);
        pixel[0] = 0xaa;
        pixel[2] = 0xcc;
    }
    assert!(img.get_pixel_mut(2, 0).is_none());
    assert!(img.get_pixel_mut(0, 2).is_none());
    let raw = img.into_dynamic();
    assert_eq!(raw.as_bytes(), &[0, 0, 0, 0, 0, 0, 0, 0, 0, 0xaa, 0, 0xcc]);
    assert_eq!(raw.as_rgb8().unwrap().get_pixel(1, 1).0, [0xaa, 0, 0xcc]);

    let mut img = Rgba32::new_with_dimensions(1, 2);
    {
        let pixel = img.get_pixel_mut(0, 1).unwrap();
        assert_eq!(pixel.len(), 16);
        pixel[4..8].copy_from_slice(&3.0f32.to_ne_bytes());
    }
    let raw = img.into_dynamic();
    assert_eq!(raw.as_rgba32f().unwrap().get_pixel(0, 1).0, [0.0, 3.0, 0.0, 0.0]);
    assert_eq!(raw.as_rgba32f().unwrap().get_pixel(0, 0).0, [0.0; 4]);

    let mut img = Rgba8::new_with_dimensions(1, 1);
    img.get_pixel_mut(0, 0).unwrap()[3] = 9;
    assert_eq!(img.into_dynamic().as_bytes(), &[0, 0, 0, 9]);

    let mut img = Rgb32::new_with_dimensions(1, 1);
    img.get_pixel_mut(0, 0).unwrap()[11] = 9;
    assert_eq!(img.get_pixel(0, 0).unwrap()[11], 9);
}

#[test]
fn copy_min_len_copies_what_fits() {
    let mut dst = [0u8; 5];
    assert_eq!(copy_min_len(&[1, 2, 3], &mut dst), 3);
    assert_eq!(dst, [1, 2, 3, 0, 0]);

    let mut dst = [9u8; 2];
    assert_eq!(copy_min_len(&[1, 2, 3], &mut dst), 2);
    assert_eq!(dst, [1, 2]);

    let mut dst = [9u16; 2];
    assert_eq!(copy_min_len(&[], &mut dst), 0);
    assert_eq!(dst, [9, 9]);

    let mut none: [u8; 0] = [];
    assert_eq!(copy_min_len(&[1, 2], &mut none), 0);
}

#[test]
fn xyrem_from_pos_addresses_pixels() {
    // two pixels of three bytes in a row
    assert_eq!(xyrem_from_pos::<Rgb8>(0, 2), (0, 0, 0));
    assert_eq!(xyrem_from_pos::<Rgb8>(2, 2), (0, 0, 2));
    assert_eq!(xyrem_from_pos::<Rgb8>(3, 2), (1, 0, 0));
    assert_eq!(xyrem_from_pos::<Rgb8>(5, 2), (1, 0, 2));
    assert_eq!(xyrem_from_pos::<Rgb8>(6, 2), (0, 1, 0));
    assert_eq!(xyrem_from_pos::<Rgb8>(11, 2), (1, 1, 2));
    assert_eq!(xyrem_from_pos::<Rgb8>(12, 2), (0, 2, 0));
    // three pixels of sixteen bytes in a row
    assert_eq!(xyrem_from_pos::<Rgba32>(8, 3), (0, 0, 8));
    assert_eq!(xyrem_from_pos::<Rgba32>(47, 3), (2, 0, 15));
    assert_eq!(xyrem_from_pos::<Rgba32>(48 * 5 + 16 + 3, 3), (1, 5, 3));
    assert_eq!(xyrem_from_pos::<Rgba8>(u64::MAX, 1), (0, u64::MAX / 4, 3));
}

#[test]
fn xyrem_from_pos_leads_back() {
    for width in 1..6u64 {
        for pos in 0..200u64 {
            let (x, y, r) = xyrem_from_pos::<Rgb32>(pos, width);
            assert!(x < width);
            assert!(r < 12);
            assert_eq!((y * width + x) * 12 + r, pos);
        }
    }
}
