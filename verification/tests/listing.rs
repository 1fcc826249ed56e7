use tile_pyramid::listing::collect_image_paths;
use tile_pyramid::listing::Column;
use tile_pyramid::listing::Entry;
use tile_pyramid::path::parse_tile_file;

fn file(name: &str) -> Entry {
    Entry { name: name.to_string(), is_file: true }
}

fn directory(name: &str) -> Entry {
    Entry { name: name.to_string(), is_file: false }
}

fn column(name: &str, files: &[&str]) -> Column {
    Column { name: name.to_string(), entries: files.iter().map(|f| file(f)).collect() }
}

#[test]
fn a_directory_named_like_a_tile_is_no_tile() {
    let columns = vec![Column { name: "0".to_string(), entries: vec![file("1.png"), directory("5.png")] }];
    assert_eq!(collect_image_paths(3, &columns), vec!["3/0/1.png"]);
}

#[test]
fn a_column_of_directories_has_no_tiles() {
    let columns = vec![
        Column { name: "0".to_string(), entries: vec![directory("0.png"), directory("1.png")] },
        Column { name: "1".to_string(), entries: vec![directory("2.png"), file("3.png"), directory("4")] },
    ];
    assert_eq!(collect_image_paths(9, &columns), vec!["9/1/3.png"]);
}

#[test]
fn lists_png_files_in_listing_order() {
    let columns = vec![column("0", &["0.png", "1.png"]), column("1", &["7.png"])];
    assert_eq!(collect_image_paths(3, &columns), vec!["3/0/0.png", "3/0/1.png", "3/1/7.png"]);
}

#[test]
fn skips_files_with_another_extension() {
    let columns = vec![column("4", &["0.jpg", "1.png", "notes.txt", ".png", "2.PNG", "3.png"])];
    assert_eq!(collect_image_paths(12, &columns), vec!["12/4/1.png", "12/4/3.png"]);
}

#[test]
fn empty_level_has_no_tiles() {
    assert!(collect_image_paths(3, &Vec::new()).is_empty());
    assert!(collect_image_paths(3, &vec![column("0", &[]), column("1", &[])]).is_empty());
}

#[test]
fn keeps_names_that_are_no_numbers() {
    let columns = vec![column("left", &["top.png"])];
    assert_eq!(collect_image_paths(0, &columns), vec!["0/left/top.png"]);
}

#[test]
fn yields_only_what_was_listed() {
    let columns = vec![column("2", &["5.png", "x.gif"]), column("3", &["8.png"])];
    let paths = collect_image_paths(7, &columns);
    assert_eq!(paths.len(), 2);
    for path in &paths {
        let found = columns.iter().any(|c| {
            c.entries.iter().any(|e| e.is_file && *path == format!("7/{}/{}", c.name, e.name))
        });
        assert!(found, "{} was not listed", path);
    }
}

#[test]
fn listed_tiles_parse_to_their_coordinates() {
    let columns = vec![column("10", &["20.png", "21.png"]), column("11", &["20.png"])];
    let coords: Vec<(u32, u32)> = collect_image_paths(5, &columns)
        .iter()
        .map(|p| parse_tile_file(p).unwrap().unwrap())
        .collect();
    assert_eq!(coords, vec![(10, 20), (10, 21), (11, 20)]);
}
