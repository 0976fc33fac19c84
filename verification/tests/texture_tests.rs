use tinyrenderer_rs::image_rw::image_read;
use tinyrenderer_rs::{
    Color, ImageFormat, ImageReadError, ImageWriteError, Texture2D, Texture2DError,
};

#[test]
fn texture_create_fills_with_transparent() {
    let texture = Texture2D::create(3, 2).unwrap();
    assert_eq!(3, texture.width());
    assert_eq!(2, texture.height());
    assert_eq!(Color::transparent(), texture.border_color());
    for y in 0..2 {
        for x in 0..3 {
            assert_eq!(Color::transparent(), *texture.get_color(x, y).unwrap());
        }
    }
}

#[test]
fn texture_create_init_color_fills_with_color() {
    let texture = Texture2D::create_init_color(2, 2, &Color::red()).unwrap();
    assert_eq!(Color::red(), *texture.get_color(1, 1).unwrap());
    assert_eq!(Color::transparent(), texture.border_color());
    assert_eq!(vec![0xFF00_00FFu32; 4], texture.to_u32_slice());
    assert_eq!(16, texture.to_u8_slice().len());
}

#[test]
fn texture_create_rejects_negative_sizes() {
    assert!(matches!(Texture2D::create(-1, 1), Err(Texture2DError::BadSize)));
    assert!(matches!(Texture2D::create(1, -1), Err(Texture2DError::BadSize)));
    assert!(matches!(
        Texture2D::create_init_color(-1, -1, &Color::red()),
        Err(Texture2DError::BadSize)
    ));
    assert!(Texture2D::create(0, 0).is_ok());
}

#[test]
fn texture_get_color_outside_is_bad_position() {
    let texture = Texture2D::create(2, 3).unwrap();
    for (x, y) in [(-1, 0), (0, -1), (2, 0), (0, 3), (i32::MAX, 0), (0, i32::MIN)] {
        assert!(matches!(texture.get_color(x, y), Err(Texture2DError::BadPosition)));
    }
}

#[test]
fn texture_border_color_can_be_replaced() {
    let mut texture = Texture2D::create_init_color(2, 2, &Color::white()).unwrap();
    texture.set_border_color(&Color::green());
    assert_eq!(Color::green(), texture.border_color());
    assert_eq!(Color::white(), *texture.get_color(0, 0).unwrap());
    assert_eq!(2, texture.width());
}

#[test]
fn texture_load_frames_decoded_bytes() {
    let data: Vec<u8> = (0u8..24).collect();
    let texture = Texture2D::load(&data, 3, 2).unwrap();
    assert_eq!(3, texture.width());
    assert_eq!(2, texture.height());
    assert_eq!(Color::new(0, 1, 2, 3), *texture.get_color(0, 0).unwrap());
    assert_eq!(Color::new(8, 9, 10, 11), *texture.get_color(2, 0).unwrap());
    assert_eq!(Color::new(12, 13, 14, 15), *texture.get_color(0, 1).unwrap());
    assert_eq!(Color::new(20, 21, 22, 23), *texture.get_color(2, 1).unwrap());
    assert_eq!(Color::transparent(), texture.border_color());
    assert_eq!(data, texture.to_u8_slice());
}

#[test]
fn texture_load_reports_decode_errors() {
    let data: Vec<u8> = (0u8..24).collect();
    for (w, h) in [(0, 0), (3, 0), (0, 2), (2, 2), (3, 3), (-3, -2), (6, 1 + 0 * 2 - 2)] {
        assert!(matches!(
            Texture2D::load(&data, w, h),
            Err(Texture2DError::ImageReadError(ImageReadError::DecodeError))
        ));
    }
    assert!(matches!(
        Texture2D::load(&Vec::new(), 0, 0),
        Err(Texture2DError::ImageReadError(ImageReadError::DecodeError))
    ));
    assert!(Texture2D::load(&data, 1, 6).is_ok());
}

#[test]
fn image_read_turns_bytes_into_pixels() {
    let data = vec![255, 0, 0, 255, 1, 2, 3, 4];
    let pixels = image_read(&data, 2, 1).unwrap();
    assert_eq!(vec![Color::red(), Color::new(1, 2, 3, 4)], pixels);
    let pixels = image_read(&data, 1, 2).unwrap();
    assert_eq!(2, pixels.len());
    assert!(matches!(image_read(&data[..7].to_vec(), 2, 1), Err(ImageReadError::DecodeError)));
    assert!(matches!(image_read(&data, 2, 2), Err(ImageReadError::DecodeError)));
    assert!(matches!(image_read(&data, 0, 1), Err(ImageReadError::DecodeError)));
    assert!(matches!(image_read(&data, -2, -1), Err(ImageReadError::DecodeError)));
    assert!(matches!(
        image_read(&data, i32::MAX, i32::MAX),
        Err(ImageReadError::DecodeError)
    ));
}

#[test]
fn image_format_follows_the_extension() {
    for name in ["jpg", "JPG", "Jpg", "jPg", "jpeg", "JPEG", "JpEg"] {
        assert_eq!(Some(ImageFormat::Jpeg), ImageFormat::from_extension(name).ok(), "{name}");
    }
    for name in ["png", "PNG", "pNg"] {
        assert_eq!(Some(ImageFormat::Png), ImageFormat::from_extension(name).ok());
    }
    for name in ["bmp", "BMP", "Bmp"] {
        assert_eq!(Some(ImageFormat::Bmp), ImageFormat::from_extension(name).ok());
    }
    for name in ["tga", "TGA", "tgA"] {
        assert_eq!(Some(ImageFormat::Tga), ImageFormat::from_extension(name).ok());
    }
}

#[test]
fn image_format_rejects_other_extensions() {
    for name in ["", "gif", "pn", "pngg", "jpe", "jpegs", ".png", "png ", "tif", "bm\u{70}\u{0301}", "ｊｐｇ"] {
        assert!(
            matches!(
                ImageFormat::from_extension(name),
                Err(ImageWriteError::UnsupportedImageType)
            ),
            "{name}"
        );
    }
}

#[test]
fn image_format_agrees_with_lowercase_comparison() {
    let letters = ['j', 'P', 'g', 'e', 'n', 'B', 'm', 't', 'A', 'x'];
    for a in letters {
        for b in letters {
            for c in letters {
                let name: String = [a, b, c].iter().collect();
                let lower = name.to_ascii_lowercase();
                let expected = match lower.as_str() {
                    "jpg" => Some(ImageFormat::Jpeg),
                    "png" => Some(ImageFormat::Png),
                    "bmp" => Some(ImageFormat::Bmp),
                    "tga" => Some(ImageFormat::Tga),
                    _ => None,
                };
                assert_eq!(expected, ImageFormat::from_extension(&name).ok(), "{name}");
            }
        }
    }
}

#[test]
fn read_errors_wrap_their_causes() {
    let cause = std::io::Error::new(std::io::ErrorKind::NotFound, "missing");
    let error = ImageReadError::from(cause);
    assert!(matches!(&error, ImageReadError::IoError(e) if e.kind() == std::io::ErrorKind::NotFound));
    let wrapped = Texture2DError::from(error);
    assert!(matches!(wrapped, Texture2DError::ImageReadError(ImageReadError::IoError(_))));
    let wrapped = Texture2DError::from(ImageWriteError::UnsupportedImageType);
    assert!(matches!(
        wrapped,
        Texture2DError::ImageWriteError(ImageWriteError::UnsupportedImageType)
    ));
}
