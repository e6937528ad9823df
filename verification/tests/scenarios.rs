use shadow_runner::builder::build_rectangles;
use shadow_runner::rect::Rect;

/// The lookup of a grid with the given marked cells, each as `(x, y, kind)`.
fn marked(cells: &[(u32, u32, i32)]) -> impl Fn(u32, u32) -> Option<i32> + '_ {
    move |x, y| {
        cells
            .iter()
            .find(|&&(cx, cy, _)| (cx, cy) == (x, y))
            .map(|&(_, _, kind)| kind)
    }
}

#[test]
fn empty_grid_gives_no_rectangle() {
    assert_eq!(build_rectangles(4, 3, |_, _| None), vec![]);
}

#[test]
fn full_single_row_gives_one_rectangle() {
    let cells = [(0, 0, 1), (1, 0, 1), (2, 0, 1), (3, 0, 1)];
    assert_eq!(
        build_rectangles(4, 1, marked(&cells)),
        vec![Rect { left: 0, right: 3, bottom: 0, top: 0, kind: 1 }]
    );
}

#[test]
fn solid_block_gives_one_rectangle() {
    let cells = [(0, 0, 1), (1, 0, 1), (2, 0, 1), (0, 1, 1), (1, 1, 1), (2, 1, 1)];
    assert_eq!(
        build_rectangles(3, 2, marked(&cells)),
        vec![Rect { left: 0, right: 2, bottom: 0, top: 1, kind: 1 }]
    );
}

#[test]
fn l_shape_gives_two_rectangles() {
    let cells = [(0, 0, 1), (1, 0, 1), (2, 0, 1), (0, 1, 1)];
    assert_eq!(
        build_rectangles(3, 2, marked(&cells)),
        vec![
            Rect { left: 0, right: 2, bottom: 0, top: 0, kind: 1 },
            Rect { left: 0, right: 0, bottom: 1, top: 1, kind: 1 },
        ]
    );
}

#[test]
fn neighbours_of_different_kinds_are_not_merged() {
    let cells = [(0, 0, 1), (1, 0, 2)];
    assert_eq!(
        build_rectangles(2, 1, marked(&cells)),
        vec![
            Rect { left: 0, right: 0, bottom: 0, top: 0, kind: 1 },
            Rect { left: 1, right: 1, bottom: 0, top: 0, kind: 2 },
        ]
    );
}

#[test]
fn checkerboard_gives_single_cells() {
    let cells = [(0, 0, 1), (1, 1, 1)];
    assert_eq!(
        build_rectangles(2, 2, marked(&cells)),
        vec![
            Rect { left: 0, right: 0, bottom: 0, top: 0, kind: 1 },
            Rect { left: 1, right: 1, bottom: 1, top: 1, kind: 1 },
        ]
    );
}

#[test]
fn other_checkerboard_gives_single_cells_too() {
    let cells = [(1, 0, 1), (0, 1, 1)];
    assert_eq!(
        build_rectangles(2, 2, marked(&cells)),
        vec![
            Rect { left: 1, right: 1, bottom: 0, top: 0, kind: 1 },
            Rect { left: 0, right: 0, bottom: 1, top: 1, kind: 1 },
        ]
    );
}

#[test]
fn lookup_is_asked_for_the_cells_of_the_grid_only() {
    let rects = build_rectangles(2, 1, |x, y| {
        assert!(x < 2 && y < 1);
        Some(1)
    });
    assert_eq!(rects, vec![Rect { left: 0, right: 1, bottom: 0, top: 0, kind: 1 }]);
}

#[test]
fn grid_without_cells_gives_no_rectangle_and_asks_for_none() {
    assert_eq!(build_rectangles(0, 0, |_, _| panic!("no cell to ask for")), vec![]);
    assert_eq!(build_rectangles(0, 4, |_, _| panic!("no cell to ask for")), vec![]);
    assert_eq!(build_rectangles(4, 0, |_, _| panic!("no cell to ask for")), vec![]);
}

#[test]
fn builder_and_decomposition_of_the_filled_grid_agree() {
    let cells = [(0, 0, 1), (1, 0, 1), (2, 0, 2), (0, 1, 1), (2, 1, 2), (2, 2, 3)];
    let mut grid = shadow_runner::grid::WallGrid::new(3, 3);
    for &(x, y, kind) in cells.iter() {
        grid.insert(x, y, kind);
    }
    assert_eq!(
        build_rectangles(3, 3, marked(&cells)),
        shadow_runner::builder::decompose(&grid)
    );
}
