use tinyrenderer_rs::color::{pack_bytes, pack_words};
use tinyrenderer_rs::{Color, Fps, FpsRet};

#[test]
fn named_colors_have_their_channels() {
    assert_eq!(Color { r: 255, g: 0, b: 0, a: 255 }, Color::red());
    assert_eq!(Color { r: 0, g: 255, b: 0, a: 255 }, Color::green());
    assert_eq!(Color { r: 0, g: 0, b: 255, a: 255 }, Color::blue());
    assert_eq!(Color { r: 255, g: 255, b: 255, a: 255 }, Color::white());
    assert_eq!(Color { r: 0, g: 0, b: 0, a: 255 }, Color::black());
    assert_eq!(Color { r: 0, g: 0, b: 0, a: 0 }, Color::transparent());
    assert_eq!(Color::transparent(), Color::default());
    assert_eq!(Color { r: 1, g: 2, b: 3, a: 4 }, Color::new(1, 2, 3, 4));
    assert!(Color::new(1, 2, 3, 4) != Color::new(1, 2, 3, 5));
}

#[test]
fn colors_pack_with_red_in_the_lowest_byte() {
    assert_eq!(0x0403_0201, Color::new(1, 2, 3, 4).to_u32());
    assert_eq!(u32::MAX, Color::white().to_u32());
    assert_eq!(0, Color::transparent().to_u32());
    for c in [Color::red(), Color::new(9, 80, 200, 17), Color::black()] {
        assert_eq!(u32::from_le_bytes([c.r, c.g, c.b, c.a]), c.to_u32());
    }
    let colors = vec![Color::new(1, 2, 3, 4), Color::red()];
    assert_eq!(vec![1, 2, 3, 4, 255, 0, 0, 255], pack_bytes(&colors));
    assert_eq!(vec![0x0403_0201, 0xFF00_00FF], pack_words(&colors));
    assert!(pack_bytes(&Vec::new()).is_empty());
}

#[test]
fn fps_reports_a_rate_after_two_seconds() {
    let mut fps = Fps::default();
    assert!(matches!(fps.update_at(1_000_000), FpsRet::NotReady));
    assert_eq!(1_000_000, fps.last_time());
    assert_eq!(1, fps.frame_count());
    assert!(matches!(fps.update_at(1_500_000), FpsRet::NotReady));
    assert!(matches!(fps.update_at(2_999_999), FpsRet::NotReady));
    assert_eq!(3, fps.frame_count());
    assert!(matches!(fps.update_at(3_000_000), FpsRet::Update(2)));
    assert_eq!(0, fps.frame_count());
    assert_eq!(3_000_000, fps.last_time());
    assert_eq!(2, fps.fps());
    assert_eq!(2, i32::from(fps));
    assert!(matches!(fps.update_at(3_000_001), FpsRet::NotUpdated(2)));
}

/// Counts `frames` frames, the last of them `elapsed` microseconds after
/// the first, and gives the report of the last.
fn report_after(frames: u32, elapsed: u128) -> FpsRet {
    let start = 10u128;
    let mut fps = Fps::new();
    fps.update_at(start);
    for _ in 2..frames {
        fps.update_at(start + 1);
    }
    fps.update_at(start + elapsed)
}

#[test]
fn fps_rounds_to_the_nearest_whole_rate() {
    for (frames, elapsed, expected) in [
        (120u32, 2_000_000u128, 60),
        (121, 2_000_000, 61),
        (3, 2_000_000, 2),
        (2, 2_000_000, 1),
        (2, 4_000_000, 1),
        (2, 4_000_001, 0),
        (100, 3_000_000, 33),
        (101, 3_000_000, 34),
        (7, 4_000_000, 2),
        (5, 4_000_000, 1),
        (6, 4_000_000, 2),
        (1000, 7_000_000, 143),
    ] {
        let float_rate = (frames as f64 / (elapsed as f64 / 1000000f64)).round() as i32;
        assert_eq!(expected, float_rate);
        let report = report_after(frames, elapsed);
        assert!(matches!(report, FpsRet::Update(r) if r == expected), "{frames} {elapsed}");
    }
}

#[test]
fn fps_agrees_with_rounding_in_double_precision() {
    for frames in 2..200u32 {
        for elapsed in [2_000_000u128, 2_000_001, 2_500_000, 3_333_333, 16_666_667, 60_000_000] {
            let float_rate = (frames as f64 / (elapsed as f64 / 1000000f64)).round() as i32;
            let report = report_after(frames, elapsed);
            assert!(matches!(report, FpsRet::Update(r) if r == float_rate), "{frames} {elapsed}");
        }
    }
}

#[test]
fn fps_with_a_zero_rate_is_not_ready() {
    let mut fps = Fps::new();
    fps.update_at(5);
    assert!(matches!(fps.update_at(5 + 10_000_000), FpsRet::Update(0)));
    assert!(matches!(fps.update_at(5 + 10_000_001), FpsRet::NotReady));
}

#[test]
fn fps_update_reads_the_clock() {
    let mut fps = Fps::default();
    assert!(matches!(fps.update(), FpsRet::NotReady));
    assert!(fps.last_time() > 1_000_000_000_000_000);
    assert_eq!(1, fps.frame_count());
    assert!(matches!(fps.update(), FpsRet::NotReady));
    assert_eq!(2, fps.frame_count());
    assert_eq!(0, fps.fps());
}
