use tinyrenderer_rs::color::rgba_to_bgra;
use tinyrenderer_rs::{Color, Depth, Framebuffer, FramebufferError, ImageWriteError};

fn depth(value: f32) -> Depth {
    Depth::from_bits(value.to_bits())
}

#[test]
fn test_framebuffer() {
    let mut framebuffer = Framebuffer::create(64, 64).unwrap();
    assert_eq!(Color::transparent(), *framebuffer.get_color(0, 0).unwrap());
    framebuffer.set_color(10, 10, &Color::red());
    assert_eq!(Color::red(), *framebuffer.get_color(10, 10).unwrap());
}

#[test]
fn framebuffer_end_to_end_leaves_other_pixels_transparent() {
    let mut framebuffer = Framebuffer::create(64, 64).unwrap();
    assert_eq!(Color::new(0, 0, 0, 0), *framebuffer.get_color(0, 0).unwrap());
    framebuffer.set_color(10, 10, &Color::red());
    for y in 0..64 {
        for x in 0..64 {
            let expected = if x == 10 && y == 10 {
                Color::new(255, 0, 0, 255)
            } else {
                Color::new(0, 0, 0, 0)
            };
            assert_eq!(expected, *framebuffer.get_color(x, y).unwrap());
        }
    }
}

#[test]
fn framebuffer_create_rejects_negative_sizes() {
    assert!(matches!(Framebuffer::create(-1, 4), Err(FramebufferError::BadSize)));
    assert!(matches!(Framebuffer::create(4, -1), Err(FramebufferError::BadSize)));
    assert!(matches!(
        Framebuffer::create_init_color(-3, -3, &Color::white()),
        Err(FramebufferError::BadSize)
    ));
}

#[test]
fn framebuffer_with_zero_area_is_legal_and_empty() {
    let mut framebuffer = Framebuffer::create(0, 7).unwrap();
    assert_eq!(0, framebuffer.width());
    assert_eq!(7, framebuffer.height());
    assert!(framebuffer.to_u8_slice().is_empty());
    assert!(framebuffer.to_u32_slice().is_empty());
    assert!(matches!(framebuffer.get_color(0, 0), Err(FramebufferError::BadPosition)));
    framebuffer.set_color(0, 0, &Color::red());
    framebuffer.clear_color();
    framebuffer.clear_depth();
    assert!(framebuffer.to_u8_slice().is_empty());
}

#[test]
fn framebuffer_create_init_color_fills_every_pixel() {
    let framebuffer = Framebuffer::create_init_color(3, 2, &Color::blue()).unwrap();
    for y in 0..2 {
        for x in 0..3 {
            assert_eq!(Color::blue(), *framebuffer.get_color(x, y).unwrap());
            assert_eq!(f32::MIN.to_bits(), framebuffer.get_depth(x, y).to_bits());
        }
    }
}

#[test]
fn framebuffer_set_then_get_returns_written_value() {
    let mut framebuffer = Framebuffer::create(5, 4).unwrap();
    for y in 0..4 {
        for x in 0..5 {
            let color = Color::new(x as u8, y as u8, (x + y) as u8, 200);
            framebuffer.set_color(x, y, &color);
            assert_eq!(color, *framebuffer.get_color(x, y).unwrap());
        }
    }
    for y in 0..4 {
        for x in 0..5 {
            let color = Color::new(x as u8, y as u8, (x + y) as u8, 200);
            assert_eq!(color, *framebuffer.get_color(x, y).unwrap());
        }
    }
}

#[test]
fn framebuffer_out_of_range_access_is_signalled_or_dropped() {
    let mut framebuffer = Framebuffer::create_init_color(4, 3, &Color::green()).unwrap();
    let before = framebuffer.to_u32_slice();
    for (x, y) in [(-1, 0), (0, -1), (4, 0), (0, 3), (4, 3), (i32::MAX, i32::MAX), (i32::MIN, 0)] {
        assert!(matches!(framebuffer.get_color(x, y), Err(FramebufferError::BadPosition)));
        framebuffer.set_color(x, y, &Color::red());
        framebuffer.set_depth(x, y, depth(0.5));
        framebuffer.set_color_with_depth(x, y, depth(0.5), &Color::red());
        assert_eq!(f32::MAX.to_bits(), framebuffer.get_depth(x, y).to_bits());
    }
    assert_eq!(before, framebuffer.to_u32_slice());
    for y in 0..3 {
        for x in 0..4 {
            assert_eq!(f32::MIN.to_bits(), framebuffer.get_depth(x, y).to_bits());
        }
    }
}

#[test]
fn framebuffer_rows_are_stored_one_after_another() {
    let mut framebuffer = Framebuffer::create(3, 2).unwrap();
    framebuffer.set_color(1, 0, &Color::new(1, 2, 3, 4));
    framebuffer.set_color(0, 1, &Color::new(5, 6, 7, 8));
    let bytes = framebuffer.to_u8_slice();
    assert_eq!(24, bytes.len());
    assert_eq!(&[1, 2, 3, 4], &bytes[4..8]);
    assert_eq!(&[5, 6, 7, 8], &bytes[12..16]);
    let words = framebuffer.to_u32_slice();
    assert_eq!(6, words.len());
    assert_eq!(u32::from_le_bytes([1, 2, 3, 4]), words[1]);
    assert_eq!(0x0807_0605, words[3]);
    assert_eq!(0, words[0]);
}

#[test]
fn framebuffer_clear_color_and_depth() {
    let mut framebuffer = Framebuffer::create(2, 2).unwrap();
    framebuffer.set_color(0, 0, &Color::red());
    framebuffer.set_depth(1, 1, depth(0.25));
    framebuffer.clear_color_with(&Color::white());
    assert_eq!(0.25f32.to_bits(), framebuffer.get_depth(1, 1).to_bits());
    framebuffer.clear_depth_with(depth(-0.5));
    for y in 0..2 {
        for x in 0..2 {
            assert_eq!(Color::white(), *framebuffer.get_color(x, y).unwrap());
            assert_eq!((-0.5f32).to_bits(), framebuffer.get_depth(x, y).to_bits());
        }
    }
    framebuffer.clear_color();
    framebuffer.clear_depth();
    for y in 0..2 {
        for x in 0..2 {
            assert_eq!(Color::transparent(), *framebuffer.get_color(x, y).unwrap());
            assert_eq!(f32::MIN.to_bits(), framebuffer.get_depth(x, y).to_bits());
        }
    }
}

#[test]
fn depth_test_first_write_then_smaller_then_larger() {
    for first in [-1.0f32, -0.5, -0.0, 0.0, 0.25, 1.0, 1.0 + f32::EPSILON, -1.0 - f32::EPSILON] {
        let mut framebuffer = Framebuffer::create(4, 4).unwrap();
        framebuffer.clear_depth();
        framebuffer.set_color_with_depth(2, 1, depth(first), &Color::red());
        assert_eq!(Color::red(), *framebuffer.get_color(2, 1).unwrap());
        assert_eq!(first.to_bits(), framebuffer.get_depth(2, 1).to_bits());
    }
    let mut framebuffer = Framebuffer::create(4, 4).unwrap();
    framebuffer.set_color_with_depth(2, 1, depth(0.5), &Color::red());
    framebuffer.set_color_with_depth(2, 1, depth(0.25), &Color::green());
    assert_eq!(Color::red(), *framebuffer.get_color(2, 1).unwrap());
    assert_eq!(0.5f32.to_bits(), framebuffer.get_depth(2, 1).to_bits());
    framebuffer.set_color_with_depth(2, 1, depth(0.5), &Color::green());
    assert_eq!(Color::red(), *framebuffer.get_color(2, 1).unwrap());
    framebuffer.set_color_with_depth(2, 1, depth(0.75), &Color::blue());
    assert_eq!(Color::blue(), *framebuffer.get_color(2, 1).unwrap());
    assert_eq!(0.75f32.to_bits(), framebuffer.get_depth(2, 1).to_bits());
    assert_eq!(Color::transparent(), *framebuffer.get_color(1, 2).unwrap());
}

#[test]
fn depth_test_rejects_depths_outside_the_clip_range() {
    let mut framebuffer = Framebuffer::create(2, 2).unwrap();
    for bad in [2.0f32, -2.0, 1.0 + 2.0 * f32::EPSILON, f32::INFINITY, f32::NEG_INFINITY, f32::NAN] {
        framebuffer.set_color_with_depth(0, 0, depth(bad), &Color::red());
        assert_eq!(Color::transparent(), *framebuffer.get_color(0, 0).unwrap());
        assert_eq!(f32::MIN.to_bits(), framebuffer.get_depth(0, 0).to_bits());
    }
}

#[test]
fn depth_test_disabled_writes_color_only() {
    let mut framebuffer = Framebuffer::create(2, 2).unwrap();
    framebuffer.set_depth(1, 1, depth(0.9));
    framebuffer.set_depth_test(false);
    framebuffer.set_color_with_depth(1, 1, depth(0.1), &Color::red());
    assert_eq!(Color::red(), *framebuffer.get_color(1, 1).unwrap());
    assert_eq!(0.9f32.to_bits(), framebuffer.get_depth(1, 1).to_bits());
    framebuffer.set_color_with_depth(1, 1, depth(5.0), &Color::green());
    assert_eq!(Color::green(), *framebuffer.get_color(1, 1).unwrap());
    framebuffer.set_depth_test(true);
    framebuffer.set_color_with_depth(1, 1, depth(0.1), &Color::blue());
    assert_eq!(Color::green(), *framebuffer.get_color(1, 1).unwrap());
}

#[test]
fn framebuffer_error_wraps_image_write_error() {
    let error = FramebufferError::from(ImageWriteError::UnsupportedImageType);
    assert!(matches!(
        error,
        FramebufferError::ImageWriteError(ImageWriteError::UnsupportedImageType)
    ));
}

#[test]
fn rgba_words_become_bgra_words() {
    let src = vec![0x4433_2211u32, 0xFF00_00FF, 0];
    let mut dst = vec![7u32; 4];
    rgba_to_bgra(&mut dst, &src);
    assert_eq!(vec![0x4411_2233u32, 0xFFFF_0000, 0, 7], dst);
    let framebuffer = Framebuffer::create_init_color(1, 1, &Color::new(10, 20, 30, 40)).unwrap();
    let mut out = vec![0u32; 1];
    rgba_to_bgra(&mut out, &framebuffer.to_u32_slice());
    assert_eq!(vec![Color::new(30, 20, 10, 40).to_u32()], out);
}
