use tinyrenderer_rs::{draw_line, Color, Depth, Framebuffer, LineSteps, Vec2i};

fn depth(value: f32) -> Depth {
    Depth::from_bits(value.to_bits())
}

/// The pixels of a line, found by plain error accumulation.
fn stepped_pixels(p0: (i32, i32), p1: (i32, i32)) -> Vec<(i32, i32)> {
    let (mut x0, mut y0, mut x1, mut y1) = (p0.0, p0.1, p1.0, p1.1);
    let mut steep = false;
    if (x0 - x1).abs() < (y0 - y1).abs() {
        std::mem::swap(&mut x0, &mut y0);
        std::mem::swap(&mut x1, &mut y1);
        steep = true;
    }
    if x0 > x1 {
        std::mem::swap(&mut x0, &mut x1);
        std::mem::swap(&mut y0, &mut y1);
    }
    let dx = x1 - x0;
    let derror2 = (y1 - y0).abs() * 2;
    let y_step = if y1 > y0 { 1 } else { -1 };
    let mut error2 = 0;
    let mut y = y0;
    let mut pixels = Vec::new();
    for x in x0..=x1 {
        pixels.push(if steep { (y, x) } else { (x, y) });
        error2 += derror2;
        if error2 > dx {
            y += y_step;
            error2 -= dx * 2;
        }
    }
    pixels
}

fn drawn_pixels(p0: (i32, i32), p1: (i32, i32), size: i32) -> Vec<(i32, i32)> {
    let mut framebuffer = Framebuffer::create(size, size).unwrap();
    framebuffer.set_depth_test(false);
    let a = Vec2i::new(p0.0, p0.1);
    let b = Vec2i::new(p1.0, p1.1);
    let steps = LineSteps::new(a, b);
    let count = (steps.end.x as i64 - steps.start.x as i64 + 1) as usize;
    let depths = vec![depth(0.0); count];
    draw_line(&mut framebuffer, &a, &b, &depths, &Color::white());
    let mut pixels = Vec::new();
    for y in 0..size {
        for x in 0..size {
            if *framebuffer.get_color(x, y).unwrap() == Color::white() {
                pixels.push((x, y));
            }
        }
    }
    pixels
}

#[test]
fn horizontal_line_touches_exactly_its_four_pixels() {
    assert_eq!(vec![(0, 0), (1, 0), (2, 0), (3, 0)], drawn_pixels((0, 0), (3, 0), 8));
    assert_eq!(vec![(0, 0), (1, 0), (2, 0), (3, 0)], drawn_pixels((3, 0), (0, 0), 8));
}

#[test]
fn vertical_line_touches_exactly_its_pixels() {
    assert_eq!(vec![(2, 1), (2, 2), (2, 3), (2, 4)], drawn_pixels((2, 1), (2, 4), 8));
    assert_eq!(vec![(2, 1), (2, 2), (2, 3), (2, 4)], drawn_pixels((2, 4), (2, 1), 8));
}

#[test]
fn zero_length_line_is_one_pixel() {
    assert_eq!(vec![(5, 6)], drawn_pixels((5, 6), (5, 6), 8));
}

#[test]
fn diagonal_lines_step_both_axes() {
    assert_eq!(vec![(0, 0), (1, 1), (2, 2), (3, 3)], drawn_pixels((0, 0), (3, 3), 8));
    assert_eq!(vec![(3, 0), (2, 1), (1, 2), (0, 3)], drawn_pixels((0, 3), (3, 0), 8));
}

#[test]
fn shallow_line_rounds_halves_down() {
    assert_eq!(
        vec![(0, 0), (1, 0), (2, 1), (3, 1), (4, 2)],
        {
            let mut pixels = drawn_pixels((0, 0), (4, 2), 8);
            pixels.sort();
            pixels
        }
    );
    let mut pixels = drawn_pixels((0, 0), (5, 1), 8);
    pixels.sort();
    assert_eq!(vec![(0, 0), (1, 0), (2, 0), (3, 1), (4, 1), (5, 1)], pixels);
}

#[test]
fn lines_of_every_octant_match_error_accumulation() {
    let center = (10, 10);
    for dy in -9..=9 {
        for dx in -9..=9 {
            let end = (center.0 + dx, center.1 + dy);
            let mut expected = stepped_pixels(center, end);
            expected.sort_by_key(|p| (p.1, p.0));
            assert_eq!(expected, drawn_pixels(center, end, 20), "to {end:?}");
        }
    }
}

#[test]
fn lines_are_connected_and_end_at_their_endpoints() {
    let center = (12, 12);
    for dy in -11..=11 {
        for dx in -11..=11 {
            let end = (center.0 + dx, center.1 + dy);
            let pixels = stepped_pixels(center, end);
            let drawn = drawn_pixels(center, end, 24);
            assert_eq!(dx.abs().max(dy.abs()) as usize + 1, drawn.len());
            assert!(drawn.contains(&center));
            assert!(drawn.contains(&end));
            for pair in pixels.windows(2) {
                let step_x = (pair[1].0 - pair[0].0).abs();
                let step_y = (pair[1].1 - pair[0].1).abs();
                assert_eq!(1, step_x.max(step_y));
                assert!(drawn.contains(&pair[0]) && drawn.contains(&pair[1]));
            }
        }
    }
}

#[test]
fn line_steps_order_and_transpose_endpoints() {
    let steps = LineSteps::new(Vec2i::new(7, 1), Vec2i::new(2, 3));
    assert!(!steps.steep);
    assert_eq!(Vec2i::new(2, 3), steps.start);
    assert_eq!(Vec2i::new(7, 1), steps.end);
    let steps = LineSteps::new(Vec2i::new(1, 9), Vec2i::new(3, 2));
    assert!(steps.steep);
    assert_eq!(Vec2i::new(2, 3), steps.start);
    assert_eq!(Vec2i::new(9, 1), steps.end);
    let steps = LineSteps::new(Vec2i::new(0, 0), Vec2i::new(4, -4));
    assert!(!steps.steep);
    let steps = LineSteps::new(Vec2i::new(i32::MIN, 0), Vec2i::new(i32::MAX, 1));
    assert!(!steps.steep);
    assert_eq!(Vec2i::new(i32::MIN, 0), steps.start);
}

#[test]
fn line_pixels_take_their_own_depths() {
    let mut framebuffer = Framebuffer::create(6, 6).unwrap();
    let depths = vec![depth(0.1), depth(0.2), depth(2.0), depth(0.4)];
    draw_line(&mut framebuffer, &Vec2i::new(4, 2), &Vec2i::new(1, 2), &depths, &Color::red());
    assert_eq!(0.1f32.to_bits(), framebuffer.get_depth(1, 2).to_bits());
    assert_eq!(0.2f32.to_bits(), framebuffer.get_depth(2, 2).to_bits());
    assert_eq!(f32::MIN.to_bits(), framebuffer.get_depth(3, 2).to_bits());
    assert_eq!(0.4f32.to_bits(), framebuffer.get_depth(4, 2).to_bits());
    assert_eq!(Color::red(), *framebuffer.get_color(1, 2).unwrap());
    assert_eq!(Color::transparent(), *framebuffer.get_color(3, 2).unwrap());
    let lower = vec![depth(0.0), depth(0.3), depth(0.3), depth(0.3)];
    draw_line(&mut framebuffer, &Vec2i::new(1, 2), &Vec2i::new(4, 2), &lower, &Color::blue());
    assert_eq!(Color::red(), *framebuffer.get_color(1, 2).unwrap());
    assert_eq!(Color::blue(), *framebuffer.get_color(2, 2).unwrap());
    assert_eq!(Color::blue(), *framebuffer.get_color(3, 2).unwrap());
    assert_eq!(Color::red(), *framebuffer.get_color(4, 2).unwrap());
}

#[test]
fn line_leaving_the_framebuffer_is_cut_off() {
    let mut framebuffer = Framebuffer::create(4, 4).unwrap();
    framebuffer.set_depth_test(false);
    let depths = vec![depth(0.0); 9];
    draw_line(&mut framebuffer, &Vec2i::new(-2, 1), &Vec2i::new(6, 1), &depths, &Color::green());
    for y in 0..4 {
        for x in 0..4 {
            let expected = if y == 1 { Color::green() } else { Color::transparent() };
            assert_eq!(expected, *framebuffer.get_color(x, y).unwrap());
        }
    }
}
