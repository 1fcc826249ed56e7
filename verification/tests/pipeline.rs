use image::DynamicImage;
use image::ImageFormat;
use image::ImageOutputFormat;
use image::Rgba;
use image::RgbaImage;
use std::collections::BTreeMap;
use std::io::Cursor;
use tile_pyramid::listing::collect_image_paths;
use tile_pyramid::listing::Column;
use tile_pyramid::listing::Entry;
use tile_pyramid::path::level_dir;
use tile_pyramid::plan::plan_tile;
use tile_pyramid::reduce::reduce_tile;
use tile_pyramid::zoom::find_last_zoom_level;
use tile_pyramid::zoom::pass_levels;

/// Files by path, standing in for a dataset on disk.
struct Dataset {
    root: String,
    files: BTreeMap<String, Vec<u8>>,
}

fn solid_tile(size: u32, color: [u8; 4]) -> Vec<u8> {
    let image = DynamicImage::ImageRgba8(RgbaImage::from_pixel(size, size, Rgba(color)));
    let mut bytes = Vec::new();
    image.write_to(&mut Cursor::new(&mut bytes), ImageOutputFormat::Png).unwrap();
    bytes
}

fn decoded(bytes: &[u8]) -> RgbaImage {
    image::load_from_memory_with_format(bytes, ImageFormat::Png).unwrap().into_rgba8()
}

fn populated_levels(dataset: &Dataset, max_zoom: u8, min_zoom: u8) -> Vec<u8> {
    let mut present = Vec::new();
    for zoom in min_zoom..=max_zoom {
        let prefix = format!("{}/", level_dir(&dataset.root, zoom));
        if dataset.files.keys().any(|path| path.starts_with(&prefix)) {
            present.push(zoom);
        }
    }
    present
}

fn list_level(dataset: &Dataset, zoom: u8) -> Vec<Column> {
    let prefix = format!("{}/", level_dir(&dataset.root, zoom));
    let mut columns: Vec<Column> = Vec::new();
    for path in dataset.files.keys() {
        if let Some(rest) = path.strip_prefix(&prefix) {
            let (name, file) = rest.split_once('/').unwrap();
            let entry = Entry { name: file.to_string(), is_file: true };
            match columns.iter_mut().find(|c| c.name == name) {
                Some(column) => column.entries.push(entry),
                None => columns.push(Column { name: name.to_string(), entries: vec![entry] }),
            }
        }
    }
    columns
}

/// One pass: every tile of `zoom` gives rise to its parent at `output_zoom`.
fn run_pass(dataset: &mut Dataset, zoom: u8, output_zoom: u8) -> usize {
    let image_paths = collect_image_paths(zoom, &list_level(dataset, zoom));
    for image_path in &image_paths {
        let plan = plan_tile(&dataset.root, image_path, zoom, output_zoom).unwrap().unwrap();
        let sources: Vec<Option<Vec<u8>>> =
            plan.sources.iter().map(|path| dataset.files.get(path).cloned()).collect();
        assert!(sources.iter().any(|source| source.is_some()), "no source for {}", plan.path);
        let tile = reduce_tile(&sources).unwrap();
        assert!(plan.path.starts_with(&format!("{}/", plan.directory)));
        dataset.files.insert(plan.path, tile);
    }
    image_paths.len()
}

fn two_tile_dataset() -> Dataset {
    let mut files = BTreeMap::new();
    files.insert("root/3/0/0.png".to_string(), solid_tile(256, [200, 10, 10, 255]));
    files.insert("root/3/0/1.png".to_string(), solid_tile(256, [10, 200, 10, 255]));
    Dataset { root: "root".to_string(), files }
}

#[test]
fn one_pass_over_two_tiles() {
    let mut dataset = two_tile_dataset();
    let start = find_last_zoom_level(&populated_levels(&dataset, 3, 0), 3, 0);
    assert_eq!(start, 3);
    let passes = pass_levels(start, 0);
    assert_eq!(passes[0], (3, 2));
    assert_eq!(run_pass(&mut dataset, 3, 2), 2);

    let level_two: Vec<&String> =
        dataset.files.keys().filter(|path| path.starts_with("root/2/")).collect();
    assert_eq!(level_two, vec!["root/2/0/0.png"]);
    let tile = decoded(&dataset.files["root/2/0/0.png"]);
    assert_eq!((tile.width(), tile.height()), (512, 512));
    for y in 0..512 {
        for x in 0..512 {
            let expected = match (x / 256, y / 256) {
                (0, 0) => [200, 10, 10, 255],
                (0, 1) => [10, 200, 10, 255],
                _ => [0, 0, 0, 0],
            };
            assert_eq!(tile.get_pixel(x, y).0, expected, "pixel ({}, {})", x, y);
        }
    }
}

#[test]
fn a_run_reduces_every_level_down_to_the_minimum() {
    let mut dataset = two_tile_dataset();
    let start = find_last_zoom_level(&populated_levels(&dataset, 24, 0), 24, 0);
    assert_eq!(start, 3);
    let mut reduced = Vec::new();
    for (zoom, output_zoom) in pass_levels(start, 0) {
        reduced.push((zoom, output_zoom, run_pass(&mut dataset, zoom, output_zoom)));
    }
    assert_eq!(reduced, vec![(3, 2, 2), (2, 1, 1), (1, 0, 1)]);
    let paths: Vec<&String> = dataset.files.keys().collect();
    assert_eq!(
        paths,
        vec!["root/0/0/0.png", "root/1/0/0.png", "root/2/0/0.png", "root/3/0/0.png", "root/3/0/1.png"]
    );
    for path in ["root/0/0/0.png", "root/1/0/0.png", "root/2/0/0.png"] {
        let tile = decoded(&dataset.files[path]);
        assert_eq!((tile.width(), tile.height()), (512, 512));
        assert!(tile.get_pixel(10, 10).0[3] != 0);
        assert_eq!(tile.get_pixel(300, 10).0, [0, 0, 0, 0]);
        assert_eq!(tile.get_pixel(300, 300).0, [0, 0, 0, 0]);
        assert_eq!(tile.get_pixel(10, 300).0[3] == 0, path != "root/2/0/0.png");
    }
}

#[test]
fn a_stored_tile_is_halved_when_it_is_read_again() {
    let mut dataset = two_tile_dataset();
    run_pass(&mut dataset, 3, 2);
    run_pass(&mut dataset, 2, 1);
    let tile = decoded(&dataset.files["root/1/0/0.png"]);
    assert_eq!(tile.get_pixel(60, 60).0, [200, 10, 10, 255]);
    assert_eq!(tile.get_pixel(60, 190).0, [10, 200, 10, 255]);
    assert_eq!(tile.get_pixel(190, 60).0, [0, 0, 0, 0]);
    assert_eq!(tile.get_pixel(60, 300).0, [0, 0, 0, 0]);
}

#[test]
fn a_single_level_range_produces_nothing() {
    let mut dataset = two_tile_dataset();
    let before = dataset.files.clone();
    let start = find_last_zoom_level(&populated_levels(&dataset, 3, 3), 3, 3);
    assert_eq!(start, 3);
    for (zoom, output_zoom) in pass_levels(start, 3) {
        run_pass(&mut dataset, zoom, output_zoom);
    }
    assert_eq!(dataset.files, before);
}

#[test]
fn an_unpopulated_range_still_walks_its_levels() {
    let mut dataset = two_tile_dataset();
    let start = find_last_zoom_level(&populated_levels(&dataset, 2, 0), 2, 0);
    assert_eq!(start, 0);
    assert!(pass_levels(start, 0).is_empty());
    let start = find_last_zoom_level(&populated_levels(&dataset, 9, 5), 9, 5);
    assert_eq!(start, 5);
    dataset.files.clear();
    let mut tiles = 0;
    for (zoom, output_zoom) in pass_levels(3, 0) {
        tiles += run_pass(&mut dataset, zoom, output_zoom);
    }
    assert_eq!(tiles, 0);
    assert!(dataset.files.is_empty());
}

#[test]
fn siblings_write_the_same_tile_with_the_same_bytes() {
    let mut dataset = two_tile_dataset();
    let plan_a = plan_tile("root", "3/0/0.png", 3, 2).unwrap().unwrap();
    let plan_b = plan_tile("root", "3/0/1.png", 3, 2).unwrap().unwrap();
    assert_eq!(plan_a.path, plan_b.path);
    let read = |plan: &tile_pyramid::plan::TilePlan, dataset: &Dataset| -> Vec<Option<Vec<u8>>> {
        plan.sources.iter().map(|path| dataset.files.get(path).cloned()).collect()
    };
    let first = reduce_tile(&read(&plan_a, &dataset)).unwrap();
    dataset.files.insert(plan_a.path.clone(), first.clone());
    let second = reduce_tile(&read(&plan_b, &dataset)).unwrap();
    assert_eq!(first, second);
}
