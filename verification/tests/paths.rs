use std::path::Path;
use tile_pyramid::decimal::append_decimal;
use tile_pyramid::decimal::parse_digits;
use tile_pyramid::path::chars_of;
use tile_pyramid::path::column_dir;
use tile_pyramid::path::has_png_extension;
use tile_pyramid::path::level_dir;
use tile_pyramid::path::parse_image_path;
use tile_pyramid::path::parse_tile_file;
use tile_pyramid::path::tile_path;
use tile_pyramid::path::PathError;

fn decimal_text(value: u32) -> String {
    let mut text = String::new();
    append_decimal(&mut text, value);
    text
}

fn parse_text(text: &str) -> Option<u32> {
    let chars = chars_of(text);
    parse_digits(&chars, 0, chars.len())
}

#[test]
fn decimal_is_the_shortest_form() {
    assert_eq!(decimal_text(0), "0");
    assert_eq!(decimal_text(7), "7");
    assert_eq!(decimal_text(10), "10");
    assert_eq!(decimal_text(256), "256");
    assert_eq!(decimal_text(1_000_000), "1000000");
    assert_eq!(decimal_text(u32::MAX), "4294967295");
}

#[test]
fn decimal_appends_to_what_is_there() {
    let mut text = String::from("tile-");
    append_decimal(&mut text, 42);
    assert_eq!(text, "tile-42");
}

#[test]
fn decimal_agrees_with_the_standard_formatter() {
    for value in [0u32, 1, 9, 10, 99, 100, 12345, 4294967294, u32::MAX] {
        assert_eq!(decimal_text(value), format!("{}", value));
    }
}

#[test]
fn digits_parse_like_the_standard_parser() {
    let samples = [
        "0", "7", "007", "+7", "+", "", "-7", "++7", "7+", " 7", "7 ", "1_000", "4294967295",
        "4294967296", "+4294967295", "00000000000000000000004294967295", "99999999999999999999",
        "12a", "a12", "٣", "１２",
    ];
    for text in samples {
        assert_eq!(parse_text(text), text.parse::<u32>().ok(), "parsing {:?}", text);
    }
}

#[test]
fn digits_parse_inside_a_range() {
    let chars = chars_of("ab123cd");
    assert_eq!(parse_digits(&chars, 2, 5), Some(123));
    assert_eq!(parse_digits(&chars, 2, 4), Some(12));
    assert_eq!(parse_digits(&chars, 1, 5), None);
    assert_eq!(parse_digits(&chars, 3, 3), None);
}

#[test]
fn chars_of_keeps_every_character() {
    assert_eq!(chars_of("a/é.png"), vec!['a', '/', 'é', '.', 'p', 'n', 'g']);
    assert!(chars_of("").is_empty());
}

#[test]
fn parse_reads_second_and_third_segment() {
    assert_eq!(parse_image_path("3/0/1"), Ok((0, 1)));
    assert_eq!(parse_image_path("12/345/6789"), Ok((345, 6789)));
    assert_eq!(parse_image_path("3/4294967295/0"), Ok((u32::MAX, 0)));
}

#[test]
fn parse_does_not_look_at_the_level_segment() {
    assert_eq!(parse_image_path("/5/6"), Ok((5, 6)));
    assert_eq!(parse_image_path("level/5/6"), Ok((5, 6)));
}

#[test]
fn parse_ignores_segments_after_the_third() {
    assert_eq!(parse_image_path("3/5/6/extra"), Ok((5, 6)));
    assert_eq!(parse_image_path("3/5/6/"), Ok((5, 6)));
}

#[test]
fn parse_accepts_what_the_integer_parser_accepts() {
    assert_eq!(parse_image_path("3/+5/007"), Ok((5, 7)));
}

#[test]
fn parse_refuses_names_with_too_few_segments() {
    assert_eq!(parse_image_path(""), Err(PathError::MissingSegment));
    assert_eq!(parse_image_path("3"), Err(PathError::MissingSegment));
    assert_eq!(parse_image_path("3/5"), Err(PathError::MissingSegment));
}

#[test]
fn parse_refuses_segments_that_are_no_numbers() {
    assert_eq!(parse_image_path("3/x/1"), Err(PathError::InvalidNumber));
    assert_eq!(parse_image_path("3/1/y"), Err(PathError::InvalidNumber));
    assert_eq!(parse_image_path("3//1"), Err(PathError::InvalidNumber));
    assert_eq!(parse_image_path("3/1/"), Err(PathError::InvalidNumber));
    assert_eq!(parse_image_path("3/-1/2"), Err(PathError::InvalidNumber));
    assert_eq!(parse_image_path("3/1/2.png"), Err(PathError::InvalidNumber));
    assert_eq!(parse_image_path("3/4294967296/0"), Err(PathError::InvalidNumber));
}

#[test]
fn parse_agrees_with_splitting_and_parsing() {
    let samples = ["3/0/1", "3/10/11/12", "a/b/c", "//", "1/2", "x/+4/05", "9/9/99999999999"];
    for text in samples {
        let parts: Vec<&str> = text.split('/').collect();
        let expected = if parts.len() < 3 {
            Err(PathError::MissingSegment)
        } else {
            match (parts[1].parse::<u32>(), parts[2].parse::<u32>()) {
                (Ok(x), Ok(y)) => Ok((x, y)),
                _ => Err(PathError::InvalidNumber),
            }
        };
        assert_eq!(parse_image_path(text), expected, "parsing {:?}", text);
    }
}

#[test]
fn tile_file_needs_the_png_suffix() {
    assert_eq!(parse_tile_file("3/0/1.png"), Some(Ok((0, 1))));
    assert_eq!(parse_tile_file("3/0/1.jpg"), None);
    assert_eq!(parse_tile_file("3/0/1"), None);
    assert_eq!(parse_tile_file("png"), None);
    assert_eq!(parse_tile_file("3/0/1.PNG"), None);
    assert_eq!(parse_tile_file("3/0/x.png"), Some(Err(PathError::InvalidNumber)));
    assert_eq!(parse_tile_file("3/0.png"), Some(Err(PathError::MissingSegment)));
    assert_eq!(parse_tile_file(".png"), Some(Err(PathError::MissingSegment)));
}

#[test]
fn parsing_recovers_the_coordinates_a_path_was_built_from() {
    let coords = [(0u32, 0u32), (0, 1), (5, 7), (1024, 99), (u32::MAX, u32::MAX - 1)];
    for zoom in [0u8, 3, 24, 255] {
        for (x, y) in coords {
            let full = tile_path("", zoom, x, y);
            let relative = full.strip_prefix('/').unwrap();
            assert_eq!(parse_tile_file(relative), Some(Ok((x, y))));
            let stem = relative.strip_suffix(".png").unwrap();
            assert_eq!(parse_image_path(stem), Ok((x, y)));
        }
    }
}

#[test]
fn paths_follow_the_layout() {
    assert_eq!(level_dir("root", 3), "root/3");
    assert_eq!(level_dir("/data/tiles", 0), "/data/tiles/0");
    assert_eq!(column_dir("root", 2, 17), "root/2/17");
    assert_eq!(tile_path("root", 2, 0, 0), "root/2/0/0.png");
    assert_eq!(tile_path("root", 255, 4294967295, 12), "root/255/4294967295/12.png");
}

#[test]
fn paths_agree_with_the_standard_formatter() {
    let (root, zoom, x, y) = ("some/root", 17u8, 70123u32, 43210u32);
    assert_eq!(level_dir(root, zoom), format!("{}/{}", root, zoom));
    assert_eq!(tile_path(root, zoom, x, y), format!("{}/{}/{}/{}.png", root, zoom, x, y));
    let path = tile_path(root, zoom, x, y);
    let parent = Path::new(&path).parent().unwrap();
    assert_eq!(Path::new(&column_dir(root, zoom, x)), parent);
}

#[test]
fn png_extension_needs_a_stem() {
    assert!(has_png_extension("1.png"));
    assert!(has_png_extension("a.b.png"));
    assert!(has_png_extension("..png"));
    assert!(!has_png_extension(".png"));
    assert!(!has_png_extension("png"));
    assert!(!has_png_extension("1.PNG"));
    assert!(!has_png_extension("1.png.bak"));
    assert!(!has_png_extension("1.jpg"));
    assert!(!has_png_extension(""));
}

#[test]
fn png_extension_agrees_with_the_standard_path() {
    let names = [
        "1.png", "a.b.png", "..png", ".png", "png", "1.PNG", "1.png.bak", "1.jpg", "x", "é.png",
        "1.pngx", "1.xpng", "...png", "1.", ".a.png",
    ];
    for name in names {
        let expected = Path::new(name).extension().and_then(|e| e.to_str()) == Some("png");
        assert_eq!(has_png_extension(name), expected, "extension of {:?}", name);
    }
}
