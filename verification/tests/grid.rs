use shadow_runner::grid::WallGrid;

#[test]
fn new_grid_has_its_size_and_no_marker() {
    let grid = WallGrid::new(4, 3);
    assert_eq!(grid.width(), 4);
    assert_eq!(grid.height(), 3);
    for y in 0..3 {
        for x in 0..4 {
            assert_eq!(grid.get(x, y), None);
        }
    }
}

#[test]
fn insert_then_get_returns_the_marker() {
    let mut grid = WallGrid::new(4, 3);
    assert_eq!(grid.insert(1, 2, 7), None);
    assert_eq!(grid.get(1, 2), Some(7));
    assert_eq!(grid.get(2, 2), None);
    assert_eq!(grid.get(2, 1), None);
}

#[test]
fn insert_replaces_and_returns_the_old_marker() {
    let mut grid = WallGrid::new(4, 3);
    assert_eq!(grid.insert(1, 2, 7), None);
    assert_eq!(grid.insert(1, 2, 9), Some(7));
    assert_eq!(grid.get(1, 2), Some(9));
}

#[test]
fn insert_keeps_the_size() {
    let mut grid = WallGrid::new(4, 3);
    grid.insert(0, 0, 1);
    grid.insert(9, 9, 1);
    assert_eq!(grid.width(), 4);
    assert_eq!(grid.height(), 3);
}

#[test]
fn markers_outside_the_grid_are_not_seen() {
    let mut grid = WallGrid::new(2, 2);
    assert_eq!(grid.insert(2, 0, 1), None);
    assert_eq!(grid.insert(0, 2, 1), None);
    assert_eq!(grid.insert(2, 0, 5), Some(1));
    assert_eq!(grid.get(2, 0), None);
    assert_eq!(grid.get(0, 2), None);
    assert_eq!(grid.get(u32::MAX, u32::MAX), None);
}

#[test]
fn grid_without_cells_sees_nothing() {
    let mut grid = WallGrid::new(0, 0);
    grid.insert(0, 0, 1);
    assert_eq!(grid.get(0, 0), None);
}

#[test]
fn from_fn_holds_what_the_lookup_returns() {
    let grid = WallGrid::from_fn(3, 2, |x, y| if x == y { Some(7) } else { None });
    assert_eq!(grid.width(), 3);
    assert_eq!(grid.height(), 2);
    assert_eq!(grid.get(0, 0), Some(7));
    assert_eq!(grid.get(1, 1), Some(7));
    assert_eq!(grid.get(1, 0), None);
    assert_eq!(grid.get(2, 1), None);
    assert_eq!(grid.get(2, 2), None);
}

#[test]
fn from_fn_asks_for_each_cell_once_and_for_no_other() {
    let asked = std::cell::RefCell::new(Vec::new());
    let grid = WallGrid::from_fn(2, 3, |x, y| {
        asked.borrow_mut().push((x, y));
        Some(1)
    });
    assert_eq!(
        asked.into_inner(),
        vec![(0, 0), (1, 0), (0, 1), (1, 1), (0, 2), (1, 2)]
    );
    assert_eq!(grid.get(1, 2), Some(1));
}

#[test]
fn from_fn_of_an_empty_grid_asks_nothing() {
    let grid = WallGrid::from_fn(0, 5, |_, _| panic!("no cell to ask for"));
    assert_eq!(grid.get(0, 0), None);
    let grid = WallGrid::from_fn(5, 0, |_, _| panic!("no cell to ask for"));
    assert_eq!(grid.get(0, 0), None);
}
