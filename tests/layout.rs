use piwall::layout::{
    assign, build, client_ids, compute, validate, InputError, LayoutError, LayoutResult,
    ScreenGeometry, TileIndex, WallGeometry,
};
use piwall::wall::{Config, Row, Screen};

fn screen(id: &str, width: i64, height: i64, bezel: i64) -> Screen {
    Screen { id: id.to_string(), bezel, height, width }
}

fn wall(name: &str, rows: Vec<Vec<Screen>>) -> Config {
    Config {
        name: name.to_string(),
        rows: rows.into_iter().map(|screens| Row { screens }).collect(),
    }
}

fn laid_out(config: &Config) -> LayoutResult {
    match compute(config) {
        Ok(r) => r,
        Err(e) => panic!("layout failed: {:?}", e),
    }
}

fn invalid(config: &Config) -> InputError {
    match compute(config) {
        Err(LayoutError::InvalidLayoutInput(e)) => e,
        other => panic!("expected invalid input, got {:?}", other),
    }
}

#[test]
fn single_screen_wall() {
    let r = laid_out(&wall("w", vec![vec![screen("a", 100, 50, 0)]]));
    assert_eq!(
        r.wall,
        WallGeometry { wall_id: "w".to_string(), x: 0, y: 0, width: 100, height: 50 }
    );
    assert_eq!(
        r.screens,
        vec![ScreenGeometry {
            screen_id: "a".to_string(),
            wall_id: "w".to_string(),
            x: 0,
            y: 0,
            width: 100,
            height: 50
        }]
    );
    assert_eq!(r.tiles, vec![TileIndex { index: 1, screen_id: "a".to_string() }]);
}

#[test]
fn two_rows_stack_vertically() {
    let r = laid_out(&wall(
        "w",
        vec![vec![screen("A", 50, 30, 0)], vec![screen("B", 70, 40, 0)]],
    ));
    assert_eq!(r.wall.width, 70);
    assert_eq!(r.wall.height, 70);
    assert_eq!(r.screens[0].y, 0);
    assert_eq!(r.screens[1].y, 30);
    assert_eq!(r.screens[0].x, 0);
    assert_eq!(r.screens[1].x, 0);
}

#[test]
fn bezel_charged_to_incoming_screen() {
    let r = laid_out(&wall("w", vec![vec![screen("a", 40, 10, 0), screen("b", 60, 10, 5)]]));
    assert_eq!(r.screens[0].x, 0);
    assert_eq!(r.screens[1].x, 45);
    // bezels do not count in the row width
    assert_eq!(r.wall.width, 100);
}

#[test]
fn bezel_accumulates_into_running_offset() {
    let r = laid_out(&wall(
        "w",
        vec![vec![screen("a", 40, 10, 0), screen("b", 60, 10, 5), screen("c", 50, 10, 5)]],
    ));
    // offset after b: 40 + (45 + 60 + 5) = 150; c sits at 150 + 5
    assert_eq!(r.screens[1].x, 45);
    assert_eq!(r.screens[2].x, 155);
}

#[test]
fn first_screen_ignores_its_bezel() {
    let r = laid_out(&wall("w", vec![vec![screen("a", 40, 10, 7), screen("b", 60, 10, 0)]]));
    assert_eq!(r.screens[0].x, 0);
    // offset after a: 0 + 0 + 40 + 7
    assert_eq!(r.screens[1].x, 47);
}

#[test]
fn zero_width_is_rejected_with_row_and_id() {
    let config = wall(
        "w",
        vec![vec![screen("a", 10, 10, 0)], vec![screen("b", 10, 10, 0), screen("c", 0, 10, 0)]],
    );
    assert_eq!(
        invalid(&config),
        InputError::NonPositiveWidth { row: 1, screen_id: "c".to_string() }
    );
}

#[test]
fn wall_without_rows_is_rejected() {
    assert_eq!(invalid(&wall("w", vec![])), InputError::NoRows);
}

#[test]
fn empty_row_is_rejected() {
    let config = wall("w", vec![vec![screen("a", 10, 10, 0)], vec![]]);
    assert_eq!(invalid(&config), InputError::EmptyRow { row: 1 });
}

#[test]
fn non_positive_height_is_rejected() {
    let config = wall("w", vec![vec![screen("a", 10, -3, 0)]]);
    assert_eq!(
        invalid(&config),
        InputError::NonPositiveHeight { row: 0, screen_id: "a".to_string() }
    );
}

#[test]
fn negative_bezel_is_rejected() {
    let config = wall("w", vec![vec![screen("a", 10, 10, 0), screen("b", 10, 10, -1)]]);
    assert_eq!(
        invalid(&config),
        InputError::NegativeBezel { row: 0, screen_id: "b".to_string() }
    );
}

#[test]
fn first_fault_in_row_major_order_is_reported() {
    let config = wall(
        "w",
        vec![
            vec![screen("a", 10, 10, 0), screen("b", 10, 0, 0)],
            vec![screen("c", 0, 10, 0)],
        ],
    );
    assert_eq!(
        invalid(&config),
        InputError::NonPositiveHeight { row: 0, screen_id: "b".to_string() }
    );
    assert_eq!(
        validate(&config),
        Err(InputError::NonPositiveHeight { row: 0, screen_id: "b".to_string() })
    );
}

#[test]
fn width_checked_before_height_and_bezel() {
    let config = wall("w", vec![vec![screen("a", 0, 0, -1)]]);
    assert_eq!(
        invalid(&config),
        InputError::NonPositiveWidth { row: 0, screen_id: "a".to_string() }
    );
}

#[test]
fn valid_wall_passes_validation() {
    let config = wall("w", vec![vec![screen("a", 1, 1, 0)]]);
    assert_eq!(validate(&config), Ok(()));
}

#[test]
fn too_tall_wall_is_rejected() {
    let config = wall(
        "w",
        vec![vec![screen("a", 10, i64::MAX, 0)], vec![screen("b", 10, 1, 0)]],
    );
    assert_eq!(invalid(&config), InputError::TooLarge);
}

#[test]
fn too_wide_row_is_rejected() {
    let config = wall("w", vec![vec![screen("a", i64::MAX, 1, 0), screen("b", 1, 1, 0)]]);
    assert_eq!(invalid(&config), InputError::TooLarge);
}

#[test]
fn left_edge_out_of_range_is_rejected() {
    // the running offset doubles with each screen
    let big = 1i64 << 62;
    let config = wall(
        "w",
        vec![vec![screen("a", big, 1, 0), screen("b", 1, 1, 0), screen("c", 1, 1, 0)]],
    );
    assert_eq!(invalid(&config), InputError::TooLarge);
}

#[test]
fn largest_values_that_fit_are_laid_out() {
    let config = wall("w", vec![vec![screen("a", i64::MAX, i64::MAX, i64::MAX)]]);
    let r = laid_out(&config);
    assert_eq!(r.wall.width, i64::MAX);
    assert_eq!(r.wall.height, i64::MAX);
    assert_eq!(r.screens[0].x, 0);
}

#[test]
fn row_is_as_tall_as_its_tallest_screen() {
    let r = laid_out(&wall(
        "w",
        vec![
            vec![screen("a", 10, 20, 0), screen("b", 10, 35, 0), screen("c", 10, 5, 0)],
            vec![screen("d", 10, 10, 0)],
        ],
    ));
    assert_eq!(r.screens[3].y, 35);
    assert_eq!(r.wall.height, 45);
}

#[test]
fn wall_is_as_wide_as_its_widest_row() {
    let r = laid_out(&wall(
        "w",
        vec![
            vec![screen("a", 10, 1, 0), screen("b", 20, 1, 0)],
            vec![screen("c", 50, 1, 0)],
            vec![screen("d", 5, 1, 0)],
        ],
    ));
    assert_eq!(r.wall.width, 50);
    assert_eq!(r.wall.height, 3);
}

#[test]
fn every_screen_gets_one_placement_and_one_tile() {
    let r = laid_out(&wall(
        "hall",
        vec![
            vec![screen("a", 10, 1, 0), screen("b", 20, 1, 0)],
            vec![screen("c", 50, 1, 0)],
            vec![screen("d", 5, 1, 0), screen("e", 5, 1, 0), screen("f", 5, 1, 0)],
        ],
    ));
    assert_eq!(r.screens.len(), 6);
    assert_eq!(r.tiles.len(), 6);
    let indices: Vec<usize> = r.tiles.iter().map(|t| t.index).collect();
    assert_eq!(indices, vec![1, 2, 3, 4, 5, 6]);
    let ids: Vec<&str> = r.screens.iter().map(|g| g.screen_id.as_str()).collect();
    assert_eq!(ids, vec!["a", "b", "c", "d", "e", "f"]);
    assert!(r.screens.iter().all(|g| g.wall_id == "hall"));
}

#[test]
fn compute_is_deterministic() {
    let config = wall(
        "w",
        vec![vec![screen("a", 40, 10, 0), screen("b", 60, 12, 5)], vec![screen("c", 9, 9, 2)]],
    );
    assert_eq!(compute(&config), compute(&config.clone()));
    let bad = wall("w", vec![vec![screen("a", 40, 0, 0)]]);
    assert_eq!(compute(&bad), compute(&bad));
}

#[test]
fn tiles_follow_the_given_row_order() {
    let top = vec![screen("a", 1, 1, 0), screen("b", 1, 1, 0)];
    let bottom = vec![screen("c", 1, 1, 0)];
    let first = assign(&wall("w", vec![top.clone(), bottom.clone()]));
    let second = assign(&wall("w", vec![bottom, top]));
    let ids = |t: &Vec<TileIndex>| t.iter().map(|e| e.screen_id.clone()).collect::<Vec<_>>();
    assert_eq!(ids(&first), vec!["a", "b", "c"]);
    assert_eq!(ids(&second), vec!["c", "a", "b"]);
    assert_eq!(second[0].index, 1);
    assert_eq!(second[2].index, 3);
}

#[test]
fn tiles_are_not_sorted_by_id() {
    let t = assign(&wall("w", vec![vec![screen("z", 1, 1, 0), screen("m", 1, 1, 0)]]));
    assert_eq!(t[0], TileIndex { index: 1, screen_id: "z".to_string() });
    assert_eq!(t[1], TileIndex { index: 2, screen_id: "m".to_string() });
}

#[test]
fn client_ids_in_row_major_order() {
    let config = wall(
        "w",
        vec![vec![screen("x", 1, 1, 0), screen("y", 1, 1, 0)], vec![], vec![screen("q", 1, 1, 0)]],
    );
    assert_eq!(client_ids(&config), vec!["x", "y", "q"]);
}

fn geometry(id: &str) -> ScreenGeometry {
    ScreenGeometry {
        screen_id: id.to_string(),
        wall_id: "w".to_string(),
        x: 0,
        y: 0,
        width: 1,
        height: 1,
    }
}

fn wall_box() -> WallGeometry {
    WallGeometry { wall_id: "w".to_string(), x: 0, y: 0, width: 1, height: 1 }
}

#[test]
fn build_refuses_count_mismatch() {
    let r = build(
        wall_box(),
        vec![geometry("a"), geometry("b")],
        vec![TileIndex { index: 1, screen_id: "a".to_string() }],
    );
    assert_eq!(r, Err(LayoutError::LayoutResultInconsistency { screens: 2, tiles: 1 }));
}

#[test]
fn build_refuses_gap_in_numbering() {
    let r = build(
        wall_box(),
        vec![geometry("a"), geometry("b")],
        vec![
            TileIndex { index: 1, screen_id: "a".to_string() },
            TileIndex { index: 3, screen_id: "b".to_string() },
        ],
    );
    assert_eq!(r, Err(LayoutError::LayoutResultInconsistency { screens: 2, tiles: 2 }));
}

#[test]
fn build_accepts_consistent_parts() {
    let tiles = vec![TileIndex { index: 1, screen_id: "a".to_string() }];
    let r = build(wall_box(), vec![geometry("a")], tiles.clone());
    assert_eq!(
        r,
        Ok(LayoutResult { wall: wall_box(), screens: vec![geometry("a")], tiles })
    );
}

#[test]
fn offset_compounds_without_bezels() {
    let r = laid_out(&wall(
        "w",
        vec![vec![screen("a", 10, 1, 0), screen("b", 10, 1, 0), screen("c", 10, 1, 0)]],
    ));
    let xs: Vec<i64> = r.screens.iter().map(|g| g.x).collect();
    assert_eq!(xs, vec![0, 10, 30]);
}
