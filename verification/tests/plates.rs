use shadow_runner::builder::grid_plates;
use shadow_runner::grid::WallGrid;
use shadow_runner::plate::{row_plates, Plate};

fn grid_of(width: u32, height: u32, cells: &[(u32, u32, i32)]) -> WallGrid {
    let mut grid = WallGrid::new(width, height);
    for &(x, y, kind) in cells {
        grid.insert(x, y, kind);
    }
    grid
}

#[test]
fn empty_row_has_no_plate() {
    let grid = WallGrid::new(5, 2);
    assert_eq!(row_plates(&grid, 0), vec![]);
    assert_eq!(row_plates(&grid, 1), vec![]);
}

#[test]
fn run_in_the_middle_is_one_plate() {
    let grid = grid_of(5, 1, &[(1, 0, 1), (2, 0, 1), (3, 0, 1)]);
    assert_eq!(row_plates(&grid, 0), vec![Plate { left: 1, right: 3, kind: 1 }]);
}

#[test]
fn run_that_touches_the_right_edge_is_closed() {
    let grid = grid_of(4, 1, &[(2, 0, 1), (3, 0, 1)]);
    assert_eq!(row_plates(&grid, 0), vec![Plate { left: 2, right: 3, kind: 1 }]);
}

#[test]
fn gap_splits_a_row_into_two_plates() {
    let grid = grid_of(5, 1, &[(0, 0, 1), (1, 0, 1), (3, 0, 1), (4, 0, 1)]);
    assert_eq!(
        row_plates(&grid, 0),
        vec![Plate { left: 0, right: 1, kind: 1 }, Plate { left: 3, right: 4, kind: 1 }]
    );
}

#[test]
fn change_of_kind_splits_a_run() {
    let grid = grid_of(4, 1, &[(0, 0, 1), (1, 0, 1), (2, 0, 3), (3, 0, 1)]);
    assert_eq!(
        row_plates(&grid, 0),
        vec![
            Plate { left: 0, right: 1, kind: 1 },
            Plate { left: 2, right: 2, kind: 3 },
            Plate { left: 3, right: 3, kind: 1 },
        ]
    );
}

#[test]
fn plates_are_read_from_the_row_asked_for() {
    let grid = grid_of(3, 2, &[(0, 0, 1), (2, 1, 2)]);
    assert_eq!(row_plates(&grid, 0), vec![Plate { left: 0, right: 0, kind: 1 }]);
    assert_eq!(row_plates(&grid, 1), vec![Plate { left: 2, right: 2, kind: 2 }]);
}

#[test]
fn row_above_the_grid_has_no_plate() {
    let mut grid = grid_of(3, 1, &[(0, 0, 1)]);
    grid.insert(1, 1, 1);
    assert_eq!(row_plates(&grid, 1), vec![]);
    assert_eq!(row_plates(&grid, u32::MAX), vec![]);
}

#[test]
fn marker_right_of_the_grid_does_not_extend_a_run() {
    let mut grid = grid_of(2, 1, &[(0, 0, 1), (1, 0, 1)]);
    grid.insert(2, 0, 1);
    assert_eq!(row_plates(&grid, 0), vec![Plate { left: 0, right: 1, kind: 1 }]);
}

#[test]
fn grid_without_columns_has_no_plate() {
    let mut grid = WallGrid::new(0, 1);
    grid.insert(0, 0, 1);
    assert_eq!(row_plates(&grid, 0), vec![]);
}

#[test]
fn negative_and_zero_kinds_are_kinds_like_any_other() {
    let grid = grid_of(3, 1, &[(0, 0, 0), (1, 0, -4), (2, 0, -4)]);
    assert_eq!(
        row_plates(&grid, 0),
        vec![Plate { left: 0, right: 0, kind: 0 }, Plate { left: 1, right: 2, kind: -4 }]
    );
}

#[test]
fn grid_plates_lists_every_row_from_the_bottom() {
    let grid = grid_of(3, 3, &[(0, 0, 1), (1, 0, 1), (2, 2, 2)]);
    assert_eq!(
        grid_plates(&grid),
        vec![
            vec![Plate { left: 0, right: 1, kind: 1 }],
            vec![],
            vec![Plate { left: 2, right: 2, kind: 2 }],
        ]
    );
}

#[test]
fn grid_without_rows_has_no_plate_rows() {
    let grid = WallGrid::new(3, 0);
    assert_eq!(grid_plates(&grid), Vec::<Vec<Plate>>::new());
}
