use tile_pyramid::zoom::find_last_zoom_level;
use tile_pyramid::zoom::level_present;
use tile_pyramid::zoom::pass_levels;

#[test]
fn locate_returns_greatest_populated_level_in_range() {
    let present = vec![1, 7, 3, 30];
    assert_eq!(find_last_zoom_level(&present, 24, 0), 7);
    assert_eq!(find_last_zoom_level(&present, 6, 0), 3);
    assert_eq!(find_last_zoom_level(&present, 2, 0), 1);
    assert_eq!(find_last_zoom_level(&present, 255, 0), 30);
}

#[test]
fn locate_ignores_levels_outside_the_range() {
    let present = vec![1, 30];
    assert_eq!(find_last_zoom_level(&present, 24, 2), 2);
    assert_eq!(find_last_zoom_level(&present, 24, 1), 1);
}

#[test]
fn locate_falls_back_to_min_zoom_when_nothing_is_populated() {
    assert_eq!(find_last_zoom_level(&Vec::new(), 24, 0), 0);
    assert_eq!(find_last_zoom_level(&Vec::new(), 24, 5), 5);
    assert_eq!(find_last_zoom_level(&vec![4], 24, 5), 5);
}

#[test]
fn locate_on_an_empty_range_returns_min_zoom() {
    assert_eq!(find_last_zoom_level(&vec![3, 4, 5, 6], 3, 6), 6);
    assert_eq!(find_last_zoom_level(&Vec::new(), 0, 255), 255);
}

#[test]
fn locate_takes_the_bounds_themselves() {
    assert_eq!(find_last_zoom_level(&vec![0], 24, 0), 0);
    assert_eq!(find_last_zoom_level(&vec![24, 0], 24, 0), 24);
    assert_eq!(find_last_zoom_level(&vec![255, 0], 255, 0), 255);
}

#[test]
fn locate_accepts_repeated_levels() {
    assert_eq!(find_last_zoom_level(&vec![2, 2, 9, 9, 2], 24, 0), 9);
}

#[test]
fn level_present_finds_listed_levels_only() {
    let present = vec![4, 9];
    assert!(level_present(&present, 4));
    assert!(level_present(&present, 9));
    assert!(!level_present(&present, 5));
    assert!(!level_present(&Vec::new(), 0));
}

#[test]
fn single_level_range_makes_no_pass() {
    for zoom in [0u8, 3, 255] {
        assert_eq!(find_last_zoom_level(&vec![zoom], zoom, zoom), zoom);
        assert_eq!(find_last_zoom_level(&Vec::new(), zoom, zoom), zoom);
        assert!(pass_levels(zoom, zoom).is_empty());
    }
}

#[test]
fn passes_step_down_one_level_at_a_time() {
    assert_eq!(pass_levels(3, 0), vec![(3, 2), (2, 1), (1, 0)]);
    assert_eq!(pass_levels(5, 4), vec![(5, 4)]);
    assert_eq!(pass_levels(255, 253), vec![(255, 254), (254, 253)]);
}

#[test]
fn no_pass_when_start_is_not_above_min_zoom() {
    assert!(pass_levels(0, 0).is_empty());
    assert!(pass_levels(2, 7).is_empty());
}

#[test]
fn a_run_walks_every_level_down_to_min_zoom() {
    let start = find_last_zoom_level(&vec![3], 24, 0);
    let passes = pass_levels(start, 0);
    assert_eq!(passes.len(), 3);
    assert_eq!(passes.first(), Some(&(3, 2)));
    assert_eq!(passes.last(), Some(&(1, 0)));
}
