use tinyrenderer_rs::model::{
    classify_line, gather, is_space_char, parse_face, split_fields, FaceCorner, LineKind,
};
use tinyrenderer_rs::ModelError;

fn corner(v: usize, vt: usize, vn: usize) -> FaceCorner {
    FaceCorner { v, vt, vn }
}

#[test]
fn spaces_are_the_unicode_white_space_characters() {
    let mut code: u32 = 0;
    while code <= 0x10FFFF {
        if let Some(c) = char::from_u32(code) {
            assert_eq!(c.is_whitespace(), is_space_char(c), "{code:#x}");
        }
        code += 1;
    }
}

#[test]
fn fields_are_split_like_split_whitespace() {
    for line in [
        "",
        " ",
        "v 1 2 3",
        "  v   1.5\t-2e3 \u{3000} 7  ",
        "f 1/2/3 4/5/6 7/8/9",
        "single",
        "\t\ttabs\tonly\t",
        "a\u{a0}b\u{2003}c",
        "é ü  ñ",
        " x",
        "x ",
    ] {
        let expected: Vec<&str> = line.split_whitespace().collect();
        assert_eq!(expected, split_fields(line), "{line:?}");
    }
}

#[test]
fn lines_are_classified_by_their_first_letters() {
    assert_eq!(LineKind::Vertex, classify_line("v 1 2 3"));
    assert_eq!(LineKind::Vertex, classify_line("   v 1 2 3  "));
    assert_eq!(LineKind::TexCoord, classify_line("vt 0.5 0.5"));
    assert_eq!(LineKind::TexCoord, classify_line("\tvt 0.5 0.5 0"));
    assert_eq!(LineKind::Normal, classify_line("vn 0 0 1"));
    assert_eq!(LineKind::Face, classify_line("f 1/1/1 2/2/2 3/3/3"));
    assert_eq!(LineKind::Face, classify_line("f x"));
    for line in [
        "", "   ", "# v 1 2 3", "  # comment", "v", "f", "vt", " v ", "v\t1 2 3", "vt\t1 2",
        "g head", "s 1", "vp 1 2", "usemtl skin", "fv 1", "V 1 2 3", "F 1/1/1 2/2/2 3/3/3",
        "vn", "vn\u{a0}1 2 3",
    ] {
        assert_eq!(LineKind::Skip, classify_line(line), "{line:?}");
    }
}

#[test]
fn lines_are_classified_like_trim_and_starts_with() {
    let pieces = ["v", "t", "n", "f", " ", "\t", "#", "1", "\u{2003}"];
    let mut lines: Vec<String> = vec![String::new()];
    for _ in 0..4 {
        let mut longer = Vec::new();
        for line in &lines {
            for piece in pieces {
                longer.push(format!("{line}{piece}"));
            }
        }
        lines.extend(longer);
        lines.sort();
        lines.dedup();
    }
    for line in &lines {
        let t = line.trim();
        let expected = if t.is_empty() || t.starts_with('#') {
            LineKind::Skip
        } else if t.starts_with("v ") {
            LineKind::Vertex
        } else if t.starts_with("vt ") {
            LineKind::TexCoord
        } else if t.starts_with("vn ") {
            LineKind::Normal
        } else if t.starts_with("f ") {
            LineKind::Face
        } else {
            LineKind::Skip
        };
        assert_eq!(expected, classify_line(line), "{line:?}");
    }
}

#[test]
fn coordinate_counts_are_checked_per_kind() {
    assert!(LineKind::Vertex.check_coordinates(3).is_ok());
    assert!(LineKind::Normal.check_coordinates(3).is_ok());
    assert!(LineKind::TexCoord.check_coordinates(2).is_ok());
    assert!(LineKind::TexCoord.check_coordinates(3).is_ok());
    for (kind, count) in [
        (LineKind::Vertex, 2),
        (LineKind::Vertex, 4),
        (LineKind::Vertex, 0),
        (LineKind::Normal, 2),
        (LineKind::Normal, 4),
        (LineKind::TexCoord, 1),
        (LineKind::TexCoord, 4),
        (LineKind::Face, 3),
        (LineKind::Skip, 3),
    ] {
        assert!(matches!(kind.check_coordinates(count), Err(ModelError::SyntaxError)));
    }
}

#[test]
fn triangle_faces_keep_their_corners() {
    let face = parse_face("f 1/2/3 4/5/6 7/8/9").unwrap();
    assert_eq!(vec![corner(0, 1, 2), corner(3, 4, 5), corner(6, 7, 8)], face);
    let face = parse_face("  f   10/20/30\t+4/05/6   7/8/9  ").unwrap();
    assert_eq!(vec![corner(9, 19, 29), corner(3, 4, 5), corner(6, 7, 8)], face);
}

#[test]
fn quad_faces_become_two_triangles() {
    let face = parse_face("f 1/1/1 2/2/2 3/3/3 4/4/4").unwrap();
    assert_eq!(
        vec![
            corner(0, 0, 0),
            corner(1, 1, 1),
            corner(2, 2, 2),
            corner(2, 2, 2),
            corner(1, 1, 1),
            corner(3, 3, 3),
        ],
        face
    );
}

#[test]
fn faces_with_bad_numbers_are_parse_errors() {
    for line in [
        "f 1/2/x 4/5/6 7/8/9",
        "f 1//3 4/5/6 7/8/9",
        "f 1/2/3 4/5/6 7/8/",
        "f 1/2/3 -4/5/6 7/8/9",
        "f 1/2/3 4/5/6 7/8/9.0",
        "f a",
        "f 1/2/3 4/5/6 7/8/99999999999999999999999999",
        "f 1/x 3/4",
        "f 1/2/3/x 4/5/6 7/8/9",
        "f / 1/2/3 1/2/3",
        "f 1/2/3 4/5/6 7/8/9 1/1/1 x",
        "f ++1/2/3 4/5/6 7/8/9",
        "f 1/2/3 4/5/6 ٣/8/9",
    ] {
        assert!(matches!(parse_face(line), Err(ModelError::ParseIntError(_))), "{line:?}");
    }
}

#[test]
fn faces_with_a_wrong_shape_are_syntax_errors() {
    for line in [
        "f",
        "f 1/2/3",
        "f 1/2/3 4/5/6",
        "f 1/2/3 4/5/6 7/8/9 1/1/1 2/2/2",
        "f 1/2 4/5/6 7/8/9",
        "f 1 2 3",
        "f 1/2/3/4 4/5/6 7/8/9",
        "f 1/2/3 4/5/6 7/8",
        "f 1/2 3/x 1/1/1",
        "f 0/1/1 2/2/2 3/3/3",
        "f 1/1/1 2/0/2 3/3/3",
        "f 1/1/1 2/2/2 3/3/3 4/4/0",
        "",
    ] {
        assert!(matches!(parse_face(line), Err(ModelError::SyntaxError)), "{line:?}");
    }
}

#[test]
fn gather_resolves_places_in_order() {
    let items = vec![10.5f32, 20.5, 30.5];
    assert_eq!(vec![30.5f32, 10.5, 10.5, 20.5], gather(&items, &vec![2, 0, 0, 1]).unwrap());
    assert!(gather(&items, &Vec::new()).unwrap().is_empty());
    let pairs = vec![(1u8, 'a'), (2, 'b')];
    assert_eq!(vec![(2u8, 'b'), (1, 'a'), (2, 'b')], gather(&pairs, &vec![1, 0, 1]).unwrap());
}

#[test]
fn gather_rejects_places_beyond_the_list() {
    let items = vec![1u32, 2, 3];
    assert!(matches!(gather(&items, &vec![0, 3]), Err(ModelError::SyntaxError)));
    assert!(matches!(gather(&items, &vec![usize::MAX]), Err(ModelError::SyntaxError)));
    let none: Vec<u32> = Vec::new();
    assert!(matches!(gather(&none, &vec![0]), Err(ModelError::SyntaxError)));
}

#[test]
fn model_errors_wrap_their_causes() {
    let io = std::io::Error::new(std::io::ErrorKind::NotFound, "missing");
    assert!(matches!(ModelError::from(io), ModelError::IoError(_)));
    let int = "x".parse::<usize>().unwrap_err();
    assert!(matches!(ModelError::from(int), ModelError::ParseIntError(_)));
    let float = "x".parse::<f32>().unwrap_err();
    assert!(matches!(ModelError::from(float), ModelError::ParseFloatError(_)));
}
