//! What holds of every decomposition of a grid.

use crate::builder::describes;
use crate::grid::WallGrid;
use crate::paint::{lemma_painted_none, lemma_painted_some, painted};
use crate::plate::{lemma_plate_in_grid, Plate};
use crate::rect::{covered, disjoint, Rect};
use crate::stack::closes_before;
use vstd::prelude::*;

verus! {

/// The first cell of the run of kind `kind` that the cell `(x, y)` lies in.
proof fn lemma_run_left(grid: &WallGrid, x: int, y: int, kind: i32) -> (left: int)
    requires
        grid.kind_at(x, y) == Some(kind),
    ensures
        0 <= left <= x,
        forall|c: int| left <= c <= x ==> grid.kind_at(c, y) == Some(kind),
        grid.kind_at(left - 1, y) != Some(kind),
    decreases x,
{
    if grid.kind_at(x - 1, y) == Some(kind) {
        lemma_run_left(grid, x - 1, y, kind)
    } else {
        x
    }
}

/// The last cell of the run of kind `kind` that the cell `(x, y)` lies in.
proof fn lemma_run_right(grid: &WallGrid, x: int, y: int, kind: i32) -> (right: int)
    requires
        grid.kind_at(x, y) == Some(kind),
    ensures
        x <= right < grid.cols(),
        forall|c: int| x <= c <= right ==> grid.kind_at(c, y) == Some(kind),
        grid.kind_at(right + 1, y) != Some(kind),
    decreases grid.cols() - x,
{
    if grid.kind_at(x + 1, y) == Some(kind) {
        lemma_run_right(grid, x + 1, y, kind)
    } else {
        x
    }
}

/// Every marked cell lies in a plate of its row, of its kind.
pub proof fn lemma_cell_in_plate(grid: &WallGrid, x: int, y: int) -> (plate: Plate)
    requires
        grid.kind_at(x, y) is Some,
    ensures
        grid.has_plate(y, plate),
        plate.left <= x <= plate.right,
        grid.kind_at(x, y) == Some(plate.kind),
{
    let kind = grid.kind_at(x, y)->0;
    let left = lemma_run_left(grid, x, y, kind);
    let right = lemma_run_right(grid, x, y, kind);
    Plate { left: left as u32, right: right as u32, kind }
}

/// The lowest row from which `plate` repeats up to row `y`.
proof fn lemma_stack_bottom(grid: &WallGrid, y: int, plate: Plate) -> (bottom: int)
    requires
        grid.has_plate(y, plate),
    ensures
        0 <= bottom <= y,
        forall|r: int| bottom <= r <= y ==> #[trigger] grid.has_plate(r, plate),
        !grid.has_plate(bottom - 1, plate),
    decreases y,
{
    lemma_plate_in_grid(grid, y, plate);
    if grid.has_plate(y - 1, plate) {
        lemma_plate_in_grid(grid, y - 1, plate);
        lemma_stack_bottom(grid, y - 1, plate)
    } else {
        y
    }
}

/// The highest row up to which `plate` repeats from row `y`.
proof fn lemma_stack_top(grid: &WallGrid, y: int, plate: Plate) -> (top: int)
    requires
        grid.has_plate(y, plate),
    ensures
        y <= top < grid.rows(),
        forall|r: int| y <= r <= top ==> #[trigger] grid.has_plate(r, plate),
        !grid.has_plate(top + 1, plate),
    decreases grid.rows() - y,
{
    lemma_plate_in_grid(grid, y, plate);
    if grid.has_plate(y + 1, plate) {
        lemma_plate_in_grid(grid, y + 1, plate);
        lemma_stack_top(grid, y + 1, plate)
    } else {
        y
    }
}

/// Every plate of a row belongs to a stack of the grid.
pub proof fn lemma_plate_in_stack(grid: &WallGrid, y: int, plate: Plate) -> (rect: Rect)
    requires
        grid.has_plate(y, plate),
    ensures
        grid.has_stack(rect),
        rect.plate() == plate,
        rect.bottom <= y <= rect.top,
{
    let bottom = lemma_stack_bottom(grid, y, plate);
    let top = lemma_stack_top(grid, y, plate);
    Rect {
        left: plate.left,
        right: plate.right,
        bottom: bottom as u32,
        top: top as u32,
        kind: plate.kind,
    }
}

/// Two plates of one row that share a cell are the same plate.
pub proof fn lemma_plates_share_cell(grid: &WallGrid, y: int, a: Plate, b: Plate, x: int)
    requires
        grid.has_plate(y, a),
        grid.has_plate(y, b),
        a.left <= x <= a.right,
        b.left <= x <= b.right,
    ensures
        a == b,
{
    assert(grid.kind_at(x, y) == Some(b.kind));
    if a.left < b.left {
        assert(grid.kind_at(b.left - 1, y) == Some(a.kind));
    }
    if b.left < a.left {
        assert(grid.kind_at(a.left - 1, y) == Some(b.kind));
    }
    if a.right < b.right {
        assert(grid.kind_at(a.right + 1, y) == Some(b.kind));
    }
    if b.right < a.right {
        assert(grid.kind_at(b.right + 1, y) == Some(a.kind));
    }
}

/// Two stacks of one plate that share a row are the same stack.
pub proof fn lemma_stacks_share_row(grid: &WallGrid, a: Rect, b: Rect, y: int)
    requires
        grid.has_stack(a),
        grid.has_stack(b),
        a.plate() == b.plate(),
        a.bottom <= y <= a.top,
        b.bottom <= y <= b.top,
    ensures
        a == b,
{
    let plate = a.plate();
    if a.bottom < b.bottom {
        assert(grid.has_plate(b.bottom - 1, plate));
    }
    if b.bottom < a.bottom {
        assert(grid.has_plate(a.bottom - 1, plate));
    }
    if a.top < b.top {
        assert(grid.has_plate(a.top + 1, plate));
    }
    if b.top < a.top {
        assert(grid.has_plate(b.top + 1, plate));
    }
}

/// Coverage: the rectangles of a decomposition cover exactly the marked
/// cells of the grid.
pub proof fn lemma_covers_marked_cells(grid: &WallGrid, rects: Seq<Rect>)
    requires
        grid.is_decomposition(rects),
    ensures
        grid.covered_by(rects),
{
    assert forall|x: int, y: int| covered(rects, x, y) <==> grid.kind_at(x, y) is Some by {
        if covered(rects, x, y) {
            let i = choose|i: int| 0 <= i < rects.len() && #[trigger] rects[i].covers(x, y);
            lemma_same_kind(grid, rects, i, x, y);
        }
        if grid.kind_at(x, y) is Some {
            let plate = lemma_cell_in_plate(grid, x, y);
            let rect = lemma_plate_in_stack(grid, y, plate);
            let i = choose|i: int| 0 <= i < rects.len() && rects[i] == rect;
            assert(rects[i].covers(x, y));
        }
    }
}

/// Non-overlap: no cell lies in two rectangles of a decomposition.
pub proof fn lemma_no_overlap(grid: &WallGrid, rects: Seq<Rect>)
    requires
        grid.is_decomposition(rects),
    ensures
        disjoint(rects),
{
    assert forall|i: int, j: int, x: int, y: int|
        0 <= i < rects.len() && 0 <= j < rects.len() && i != j implies !(#[trigger] rects[i].covers(
        x,
        y,
    ) && #[trigger] rects[j].covers(x, y)) by {
        if rects[i].covers(x, y) && rects[j].covers(x, y) {
            lemma_plates_share_cell(grid, y, rects[i].plate(), rects[j].plate(), x);
            lemma_stacks_share_row(grid, rects[i], rects[j], y);
            // one rectangle in two places, where the order is strict
            assert(closes_before(rects[i], rects[j]) || closes_before(rects[j], rects[i]));
        }
    }
}

/// Kind-homogeneity at one cell: a cell in a rectangle of a decomposition is
/// marked in the grid with the kind of the rectangle.
pub proof fn lemma_same_kind(grid: &WallGrid, rects: Seq<Rect>, i: int, x: int, y: int)
    requires
        grid.is_decomposition(rects),
        0 <= i < rects.len(),
        rects[i].covers(x, y),
    ensures
        grid.kind_at(x, y) == Some(rects[i].kind),
{
    assert(grid.has_plate(y, rects[i].plate()));
}

/// Kind-homogeneity: every cell of every rectangle of a decomposition is
/// marked in the grid with the kind of the rectangle.
pub proof fn lemma_kinds_match(grid: &WallGrid, rects: Seq<Rect>)
    requires
        grid.is_decomposition(rects),
    ensures
        grid.kinds_kept(rects),
{
    assert forall|i: int, x: int, y: int|
        0 <= i < rects.len() && #[trigger] rects[i].covers(x, y) implies grid.kind_at(x, y) == Some(
        rects[i].kind,
    ) by {
        lemma_same_kind(grid, rects, i, x, y);
    }
}

/// Two decompositions of one grid agree on their first `n` rectangles.
proof fn lemma_same_prefix(grid: &WallGrid, a: Seq<Rect>, b: Seq<Rect>, n: int)
    requires
        grid.is_decomposition(a),
        grid.is_decomposition(b),
        0 <= n <= a.len(),
    ensures
        n <= b.len(),
        forall|i: int| 0 <= i < n ==> a[i] == b[i],
    decreases n,
{
    if n > 0 {
        lemma_same_prefix(grid, a, b, n - 1);
        let i = n - 1;
        // where `a[i]` stands in `b`
        let j = choose|j: int| 0 <= j < b.len() && b[j] == a[i];
        if j < i {
            assert(a[j] == b[j]);
            assert(closes_before(a[j], a[i]));
        }
        // where `b[i]` stands in `a`
        let m = choose|m: int| 0 <= m < a.len() && a[m] == b[i];
        if m < i {
            assert(a[m] == b[m]);
            assert(closes_before(b[m], b[i]));
        }
        if j > i {
            assert(closes_before(b[i], b[j]));
            if m > i {
                assert(closes_before(a[i], a[m]));
            }
        }
    }
}

/// A grid has one decomposition.
pub proof fn lemma_decomposition_unique(grid: &WallGrid, a: Seq<Rect>, b: Seq<Rect>)
    requires
        grid.is_decomposition(a),
        grid.is_decomposition(b),
    ensures
        a == b,
{
    lemma_same_prefix(grid, a, b, a.len() as int);
    lemma_same_prefix(grid, b, a, b.len() as int);
}

/// Two grids that mark every cell alike have the same decomposition.
pub proof fn lemma_same_cells(a: &WallGrid, b: &WallGrid, rects: Seq<Rect>)
    requires
        forall|x: int, y: int| a.kind_at(x, y) == b.kind_at(x, y),
        a.is_decomposition(rects),
    ensures
        b.is_decomposition(rects),
{
    assert forall|y: int, plate: Plate| a.has_plate(y, plate) <==> b.has_plate(y, plate) by {}
    assert forall|rect: Rect| a.has_stack(rect) <==> b.has_stack(rect) by {
        assert(a.has_plate(rect.bottom - 1, rect.plate()) <==> b.has_plate(
            rect.bottom - 1,
            rect.plate(),
        ));
        assert(a.has_plate(rect.top + 1, rect.plate()) <==> b.has_plate(
            rect.top + 1,
            rect.plate(),
        ));
    }
}

/// Determinism: the decomposition depends on nothing but the marks that the
/// grid shows. Two grids that mark every cell alike, however they were
/// filled, have the same rectangles in the same order; so have two runs of
/// the builder on one grid.
pub proof fn lemma_same_grid_same_rectangles(
    a: &WallGrid,
    b: &WallGrid,
    first: Seq<Rect>,
    second: Seq<Rect>,
)
    requires
        forall|x: int, y: int| a.kind_at(x, y) == b.kind_at(x, y),
        a.is_decomposition(first),
        b.is_decomposition(second),
    ensures
        first == second,
{
    lemma_same_cells(a, b, first);
    lemma_decomposition_unique(b, first, second);
}

/// Determinism of the builder: where the lookup has one answer for each
/// cell, the grid that it describes has one decomposition, so two runs of
/// the builder on that lookup give the same rectangles in the same order.
pub proof fn lemma_same_lookup_same_rectangles<F: Fn(u32, u32) -> Option<i32>>(
    kind_at: F,
    width: u32,
    height: u32,
    a: &WallGrid,
    b: &WallGrid,
    first: Seq<Rect>,
    second: Seq<Rect>,
)
    requires
        forall|x: u32, y: u32, p: Option<i32>, q: Option<i32>|
            call_ensures(kind_at, (x, y), p) && call_ensures(kind_at, (x, y), q) ==> p == q,
        describes(kind_at, width, height, *a),
        describes(kind_at, width, height, *b),
        a.is_decomposition(first),
        b.is_decomposition(second),
    ensures
        first == second,
{
    assert forall|x: int, y: int| a.kind_at(x, y) == b.kind_at(x, y) by {
        if 0 <= x < width && 0 <= y < height {
            let (cx, cy) = (x as u32, y as u32);
            assert(call_ensures(kind_at, (cx, cy), a.kind_at(cx as int, cy as int)));
            assert(call_ensures(kind_at, (cx, cy), b.kind_at(cx as int, cy as int)));
        }
    }
    lemma_same_grid_same_rectangles(a, b, first, second);
}

/// Painting the decomposition of a grid onto an empty canvas of the same
/// size gives back the marks of the grid.
pub proof fn lemma_repaint_restores(grid: &WallGrid, rects: Seq<Rect>, canvas: &WallGrid)
    requires
        grid.is_decomposition(rects),
        canvas.cols() == grid.cols(),
        canvas.rows() == grid.rows(),
        canvas.shows(rects),
    ensures
        forall|x: int, y: int| canvas.kind_at(x, y) == grid.kind_at(x, y),
{
    lemma_covers_marked_cells(grid, rects);
    assert forall|x: int, y: int| canvas.kind_at(x, y) == grid.kind_at(x, y) by {
        if 0 <= x < grid.cols() && 0 <= y < grid.rows() {
            if painted(rects, x, y) is Some {
                let i = lemma_painted_some(rects, x, y);
                lemma_same_kind(grid, rects, i, x, y);
            } else {
                lemma_painted_none(rects, x, y);
                assert(!covered(rects, x, y));
            }
        }
    }
}

/// Idempotence under re-decomposition: the decomposition of the canvas on
/// which the decomposition of a grid was painted is that same decomposition.
pub proof fn lemma_repaint_same(
    grid: &WallGrid,
    rects: Seq<Rect>,
    canvas: &WallGrid,
    again: Seq<Rect>,
)
    requires
        grid.is_decomposition(rects),
        canvas.cols() == grid.cols(),
        canvas.rows() == grid.rows(),
        canvas.shows(rects),
        canvas.is_decomposition(again),
    ensures
        again == rects,
{
    lemma_repaint_restores(grid, rects, canvas);
    lemma_same_cells(canvas, grid, again);
    lemma_decomposition_unique(grid, again, rects);
}

} // verus!
