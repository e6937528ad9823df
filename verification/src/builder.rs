//! The collider builder: from a grid of wall markers to rectangles.

use crate::grid::WallGrid;
use crate::laws::{lemma_covers_marked_cells, lemma_kinds_match, lemma_no_overlap};
use crate::plate::{lemma_plate_in_grid, row_plates, Plate};
use crate::rect::{covered, disjoint, Rect};
use crate::stack::{
    closes_before, in_row, is_stack, is_stacking, plate_rows, row_ordered, stack_plates,
};
use vstd::prelude::*;

verus! {

impl WallGrid {
    /// Whether `rect` is a stack of the grid: each of its rows has its plate,
    /// and the rows just below and just above do not.
    pub open spec fn has_stack(&self, rect: Rect) -> bool {
        &&& rect.bottom <= rect.top
        &&& forall|y: int|
            rect.bottom <= y <= rect.top ==> #[trigger] self.has_plate(y, rect.plate())
        &&& !self.has_plate(rect.bottom - 1, rect.plate())
        &&& !self.has_plate(rect.top + 1, rect.plate())
    }

    /// Whether `rects` is the decomposition of the grid: its stacks, each of
    /// them once, ordered by top row and within one top row from left to
    /// right.
    pub open spec fn is_decomposition(&self, rects: Seq<Rect>) -> bool {
        &&& forall|i: int| 0 <= i < rects.len() ==> self.has_stack(#[trigger] rects[i])
        &&& forall|rect: Rect| #[trigger] self.has_stack(rect) ==> rects.contains(rect)
        &&& forall|i: int, j: int|
            0 <= i < j < rects.len() ==> closes_before(#[trigger] rects[i], #[trigger] rects[j])
    }

    /// Whether `rects` cover the marked cells of the grid and no other cell.
    pub open spec fn covered_by(&self, rects: Seq<Rect>) -> bool {
        forall|x: int, y: int| covered(rects, x, y) <==> self.kind_at(x, y) is Some
    }

    /// Whether every cell of each of `rects` is marked in the grid with the
    /// kind of that rectangle.
    pub open spec fn kinds_kept(&self, rects: Seq<Rect>) -> bool {
        forall|i: int, x: int, y: int|
            0 <= i < rects.len() && #[trigger] rects[i].covers(x, y) ==> self.kind_at(x, y)
                == Some(rects[i].kind)
    }

    /// Whether `rows` holds, for each row of the grid from the bottom up, the
    /// plates of that row.
    pub open spec fn rows_are(&self, rows: Seq<Seq<Plate>>) -> bool {
        &&& rows.len() == self.rows()
        &&& forall|y: int| 0 <= y < rows.len() ==> self.row_is(y, #[trigger] rows[y])
    }
}

/// Stacking the plate rows of a grid gives the decomposition of the grid.
pub proof fn lemma_stacking_decomposes(grid: &WallGrid, rows: Seq<Seq<Plate>>, rects: Seq<Rect>)
    requires
        grid.rows_are(rows),
        is_stacking(rows, rects),
    ensures
        grid.is_decomposition(rects),
{
    assert forall|y: int, plate: Plate| in_row(rows, y, plate) <==> grid.has_plate(y, plate) by {
        if 0 <= y < rows.len() {
            assert(grid.row_is(y, rows[y]));
        } else if grid.has_plate(y, plate) {
            lemma_plate_in_grid(grid, y, plate);
        }
    }
    assert forall|rect: Rect| is_stack(rows, rect) <==> grid.has_stack(rect) by {
        if is_stack(rows, rect) {
            assert forall|y: int| rect.bottom <= y <= rect.top implies #[trigger] grid.has_plate(
                y,
                rect.plate(),
            ) by {
                assert(in_row(rows, y, rect.plate()));
            }
        }
        if grid.has_stack(rect) {
            assert forall|y: int| rect.bottom <= y <= rect.top implies #[trigger] in_row(
                rows,
                y,
                rect.plate(),
            ) by {
                assert(grid.has_plate(y, rect.plate()));
            }
        }
    }
}

/// The plates of every row of the grid, from the bottom row up.
pub fn grid_plates(grid: &WallGrid) -> (rows: Vec<Vec<Plate>>)
    ensures
        grid.rows_are(plate_rows(rows@)),
{
    let height = grid.height();
    let mut rows: Vec<Vec<Plate>> = Vec::new();
    let mut y: u32 = 0;
    while y < height
        invariant
            height == grid.rows(),
            y <= height,
            rows@.len() == y,
            forall|r: int| 0 <= r < y ==> grid.row_is(r, (#[trigger] rows@[r])@),
        decreases height - y,
    {
        let row = row_plates(grid, y);
        rows.push(row);
        y += 1;
    }
    rows
}

/// The decomposition of the grid: the rectangles that cover its marked
/// cells, one for each run of equal plates in neighbouring rows, ordered by
/// top row and within one top row from left to right.
///
/// The rectangles cover the marked cells and no other cell, no two of them
/// share a cell, and each one lies on cells of its own kind only.
pub fn decompose(grid: &WallGrid) -> (rects: Vec<Rect>)
    ensures
        grid.is_decomposition(rects@),
        grid.covered_by(rects@),
        disjoint(rects@),
        grid.kinds_kept(rects@),
{
    let rows = grid_plates(grid);
    proof {
        let all = plate_rows(rows@);
        assert forall|y: int| 0 <= y < all.len() implies row_ordered(#[trigger] all[y]) by {
            assert(grid.row_is(y, all[y]));
        }
    }
    let rects = stack_plates(&rows);
    proof {
        lemma_stacking_decomposes(grid, plate_rows(rows@), rects@);
        lemma_covers_marked_cells(grid, rects@);
        lemma_no_overlap(grid, rects@);
        lemma_kinds_match(grid, rects@);
    }
    rects
}

/// Whether `grid` is a grid of the given size each of whose cells holds what
/// `kind_at` returns for it.
pub open spec fn describes<F: Fn(u32, u32) -> Option<i32>>(
    kind_at: F,
    width: u32,
    height: u32,
    grid: WallGrid,
) -> bool {
    &&& grid.cols() == width
    &&& grid.rows() == height
    &&& forall|x: u32, y: u32|
        x < width && y < height ==> call_ensures(
            kind_at,
            (x, y),
            #[trigger] grid.kind_at(x as int, y as int),
        )
}

/// The rectangles that cover the marked cells of a `width` by `height` grid,
/// where `kind_at` tells the kind that marks a cell, if any.
///
/// They are the decomposition of the grid that `kind_at` describes: they
/// cover the marked cells and no other cell, no two of them share a cell, and
/// each one lies on cells of its own kind only.
pub fn build_rectangles<F: Fn(u32, u32) -> Option<i32>>(
    width: u32,
    height: u32,
    kind_at: F,
) -> (rects: Vec<Rect>)
    requires
        forall|x: u32, y: u32| x < width && y < height ==> call_requires(kind_at, (x, y)),
    ensures
        exists|grid: WallGrid| #[trigger]
            describes(kind_at, width, height, grid) && grid.is_decomposition(rects@)
                && grid.covered_by(rects@) && grid.kinds_kept(rects@),
        disjoint(rects@),
{
    let grid = WallGrid::from_fn(width, height, kind_at);
    let rects = decompose(&grid);
    proof {
        assert(describes(kind_at, width, height, grid));
    }
    rects
}

} // verus!
