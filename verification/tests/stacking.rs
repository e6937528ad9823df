use shadow_runner::builder::decompose;
use shadow_runner::grid::WallGrid;
use shadow_runner::plate::Plate;
use shadow_runner::rect::Rect;
use shadow_runner::stack::{row_contains, stack_plates};

fn grid_of(width: u32, height: u32, cells: &[(u32, u32, i32)]) -> WallGrid {
    let mut grid = WallGrid::new(width, height);
    for &(x, y, kind) in cells {
        grid.insert(x, y, kind);
    }
    grid
}

#[test]
fn row_contains_finds_equal_plates_only() {
    let row = vec![Plate { left: 0, right: 1, kind: 1 }, Plate { left: 3, right: 4, kind: 2 }];
    assert!(row_contains(&row, Plate { left: 3, right: 4, kind: 2 }));
    assert!(!row_contains(&row, Plate { left: 3, right: 4, kind: 1 }));
    assert!(!row_contains(&row, Plate { left: 3, right: 5, kind: 2 }));
    assert!(!row_contains(&row, Plate { left: 2, right: 4, kind: 2 }));
    assert!(!row_contains(&Vec::new(), Plate { left: 0, right: 0, kind: 0 }));
}

#[test]
fn no_rows_stack_to_nothing() {
    assert_eq!(stack_plates(&Vec::new()), vec![]);
    assert_eq!(stack_plates(&vec![vec![], vec![]]), vec![]);
}

#[test]
fn equal_plates_of_neighbouring_rows_stack() {
    let plate = Plate { left: 1, right: 2, kind: 1 };
    assert_eq!(
        stack_plates(&vec![vec![plate], vec![plate], vec![plate]]),
        vec![Rect { left: 1, right: 2, bottom: 0, top: 2, kind: 1 }]
    );
}

#[test]
fn plate_that_comes_back_after_a_gap_starts_a_new_rectangle() {
    let plate = Plate { left: 1, right: 2, kind: 1 };
    assert_eq!(
        stack_plates(&vec![vec![plate], vec![], vec![plate]]),
        vec![
            Rect { left: 1, right: 2, bottom: 0, top: 0, kind: 1 },
            Rect { left: 1, right: 2, bottom: 2, top: 2, kind: 1 },
        ]
    );
}

#[test]
fn plates_that_differ_in_one_end_do_not_stack() {
    let wide = Plate { left: 0, right: 2, kind: 1 };
    let narrow = Plate { left: 0, right: 1, kind: 1 };
    assert_eq!(
        stack_plates(&vec![vec![wide], vec![narrow]]),
        vec![
            Rect { left: 0, right: 2, bottom: 0, top: 0, kind: 1 },
            Rect { left: 0, right: 1, bottom: 1, top: 1, kind: 1 },
        ]
    );
}

#[test]
fn plates_that_differ_in_kind_do_not_stack() {
    assert_eq!(
        stack_plates(&vec![
            vec![Plate { left: 0, right: 2, kind: 1 }],
            vec![Plate { left: 0, right: 2, kind: 2 }],
        ]),
        vec![
            Rect { left: 0, right: 2, bottom: 0, top: 0, kind: 1 },
            Rect { left: 0, right: 2, bottom: 1, top: 1, kind: 2 },
        ]
    );
}

#[test]
fn rectangles_come_out_by_top_row_then_from_left_to_right() {
    let a = Plate { left: 0, right: 0, kind: 1 };
    let b = Plate { left: 2, right: 3, kind: 1 };
    let c = Plate { left: 5, right: 5, kind: 2 };
    assert_eq!(
        stack_plates(&vec![vec![a, b, c], vec![b], vec![a, b]]),
        vec![
            Rect { left: 0, right: 0, bottom: 0, top: 0, kind: 1 },
            Rect { left: 5, right: 5, bottom: 0, top: 0, kind: 2 },
            Rect { left: 0, right: 0, bottom: 2, top: 2, kind: 1 },
            Rect { left: 2, right: 3, bottom: 0, top: 2, kind: 1 },
        ]
    );
}

#[test]
fn rectangle_that_touches_the_top_row_is_finished() {
    let grid = grid_of(2, 3, &[(1, 1, 1), (1, 2, 1)]);
    assert_eq!(
        decompose(&grid),
        vec![Rect { left: 1, right: 1, bottom: 1, top: 2, kind: 1 }]
    );
}

#[test]
fn column_with_a_gap_gives_two_rectangles() {
    let grid = grid_of(1, 4, &[(0, 0, 1), (0, 1, 1), (0, 3, 1)]);
    assert_eq!(
        decompose(&grid),
        vec![
            Rect { left: 0, right: 0, bottom: 0, top: 1, kind: 1 },
            Rect { left: 0, right: 0, bottom: 3, top: 3, kind: 1 },
        ]
    );
}

#[test]
fn markers_outside_the_grid_give_no_rectangle() {
    let grid = grid_of(2, 2, &[(2, 0, 1), (0, 2, 1), (7, 7, 1)]);
    assert_eq!(decompose(&grid), vec![]);
}

#[test]
fn grid_without_rows_or_columns_gives_no_rectangle() {
    assert_eq!(decompose(&grid_of(0, 3, &[(0, 0, 1)])), vec![]);
    assert_eq!(decompose(&grid_of(3, 0, &[(0, 0, 1)])), vec![]);
    assert_eq!(decompose(&WallGrid::new(0, 0)), vec![]);
}

#[test]
fn replaced_marker_counts_with_its_last_kind() {
    let mut grid = grid_of(2, 1, &[(0, 0, 1), (1, 0, 2)]);
    grid.insert(1, 0, 1);
    assert_eq!(
        decompose(&grid),
        vec![Rect { left: 0, right: 1, bottom: 0, top: 0, kind: 1 }]
    );
}

#[test]
fn walls_and_triggers_of_one_level_are_kept_apart() {
    // a floor of walls with a pit of out-of-world markers, and a way out above
    let grid = grid_of(
        6,
        3,
        &[
            (0, 0, 1),
            (1, 0, 1),
            (2, 0, 2),
            (3, 0, 2),
            (4, 0, 1),
            (5, 0, 1),
            (0, 1, 1),
            (1, 1, 1),
            (5, 1, 3),
            (5, 2, 3),
        ],
    );
    assert_eq!(
        decompose(&grid),
        vec![
            Rect { left: 2, right: 3, bottom: 0, top: 0, kind: 2 },
            Rect { left: 4, right: 5, bottom: 0, top: 0, kind: 1 },
            Rect { left: 0, right: 1, bottom: 0, top: 1, kind: 1 },
            Rect { left: 5, right: 5, bottom: 1, top: 2, kind: 3 },
        ]
    );
}
