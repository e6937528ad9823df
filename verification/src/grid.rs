//! The grid of wall markers of one level region.

use crate::tables::{marker_entries, marker_map_get, marker_map_insert, marker_map_new, MarkerMap};
use vstd::prelude::*;

verus! {

/// A `width` by `height` grid of cells, each either empty or marked with a
/// kind. Markers may be recorded for any cell; only those inside the grid are
/// ever read.
pub struct WallGrid {
    width: u32,
    height: u32,
    cells: MarkerMap,
}

impl WallGrid {
    /// Number of columns.
    pub closed spec fn cols(&self) -> u32 {
        self.width
    }

    /// Number of rows.
    pub closed spec fn rows(&self) -> u32 {
        self.height
    }

    /// Every marker recorded so far, by cell `(x, y)`.
    pub closed spec fn marks(&self) -> Map<(u32, u32), i32> {
        marker_entries(self.cells)
    }

    /// The marker recorded for the cell `(x, y)`, inside the grid or not.
    pub open spec fn recorded(&self, x: int, y: int) -> Option<i32> {
        if 0 <= x <= u32::MAX && 0 <= y <= u32::MAX && self.marks().contains_key(
            (x as u32, y as u32),
        ) {
            Some(self.marks()[(x as u32, y as u32)])
        } else {
            None
        }
    }

    /// The kind that marks the cell `(x, y)`: `None` for an empty cell and
    /// for every position outside the grid.
    pub open spec fn kind_at(&self, x: int, y: int) -> Option<i32> {
        if 0 <= x < self.cols() && 0 <= y < self.rows() {
            self.recorded(x, y)
        } else {
            None
        }
    }

    /// An empty grid of the given size.
    pub fn new(width: u32, height: u32) -> (grid: Self)
        ensures
            grid.cols() == width,
            grid.rows() == height,
            grid.marks() == (Map::<(u32, u32), i32>::empty()),
    {
        WallGrid { width, height, cells: marker_map_new() }
    }

    /// A grid of the given size that holds, for each of its cells, what
    /// `kind_at` returns for that cell, and nothing outside of them.
    pub fn from_fn<F: Fn(u32, u32) -> Option<i32>>(width: u32, height: u32, kind_at: F) -> (grid:
        Self)
        requires
            forall|x: u32, y: u32| x < width && y < height ==> call_requires(kind_at, (x, y)),
        ensures
            grid.cols() == width,
            grid.rows() == height,
            forall|x: u32, y: u32|
                x < width && y < height ==> call_ensures(
                    kind_at,
                    (x, y),
                    #[trigger] grid.kind_at(x as int, y as int),
                ),
            forall|x: int, y: int|
                !(0 <= x < width && 0 <= y < height) ==> #[trigger] grid.recorded(x, y) is None,
    {
        let mut grid = WallGrid::new(width, height);
        let mut y: u32 = 0;
        while y < height
            invariant
                y <= height,
                grid.cols() == width,
                grid.rows() == height,
                forall|x: u32, y: u32| x < width && y < height ==> call_requires(kind_at, (x, y)),
                filled_to(&grid, kind_at, 0, y as int),
            decreases height - y,
        {
            let mut x: u32 = 0;
            while x < width
                invariant
                    y < height,
                    x <= width,
                    grid.cols() == width,
                    grid.rows() == height,
                    forall|x: u32, y: u32|
                        x < width && y < height ==> call_requires(kind_at, (x, y)),
                    filled_to(&grid, kind_at, x as int, y as int),
                decreases width - x,
            {
                let ghost before = grid;
                match kind_at(x, y) {
                    Some(kind) => {
                        grid.insert(x, y, kind);
                    },
                    None => {},
                }
                proof {
                    assert forall|cx: int, cy: int|
                        before.recorded(cx, cy) == grid.recorded(cx, cy) || (cx == x && cy
                            == y) by {}
                }
                x += 1;
            }
            y += 1;
        }
        grid
    }

    /// Number of columns.
    pub fn width(&self) -> (w: u32)
        ensures
            w == self.cols(),
    {
        self.width
    }

    /// Number of rows.
    pub fn height(&self) -> (h: u32)
        ensures
            h == self.rows(),
    {
        self.height
    }

    /// Marks the cell `(x, y)` with `kind`, replacing the marker that the
    /// cell had; returns the replaced kind.
    pub fn insert(&mut self, x: u32, y: u32, kind: i32) -> (previous: Option<i32>)
        ensures
            final(self).cols() == old(self).cols(),
            final(self).rows() == old(self).rows(),
            final(self).marks() == old(self).marks().insert((x, y), kind),
            previous == (if old(self).marks().contains_key((x, y)) {
                Some(old(self).marks()[(x, y)])
            } else {
                None
            }),
    {
        marker_map_insert(&mut self.cells, x, y, kind)
    }

    /// The kind that marks the cell `(x, y)`, as [`WallGrid::kind_at`] has it.
    pub fn get(&self, x: u32, y: u32) -> (found: Option<i32>)
        ensures
            found == self.kind_at(x as int, y as int),
    {
        if x < self.width && y < self.height {
            marker_map_get(&self.cells, x, y)
        } else {
            None
        }
    }
}

/// What a grid holds while it is filled from `kind_at`: the cells of the
/// rows below `y`, and those of row `y` before `x`, hold what `kind_at`
/// returned for them, and nothing else is recorded.
spec fn filled_to<F: Fn(u32, u32) -> Option<i32>>(
    grid: &WallGrid,
    kind_at: F,
    x: int,
    y: int,
) -> bool {
    forall|cx: int, cy: int|
        if 0 <= cx < grid.cols() && 0 <= cy < grid.rows() && (cy < y || (cy == y && cx < x)) {
            call_ensures(kind_at, (cx as u32, cy as u32), #[trigger] grid.recorded(cx, cy))
        } else {
            grid.recorded(cx, cy) is None
        }
}

} // verus!
