//! Painting rectangles onto a grid: the way back from a decomposition to
//! the grid it was made of.

use crate::grid::WallGrid;
use crate::rect::Rect;
use vstd::prelude::*;

verus! {

/// The kind that the cell `(x, y)` shows after `rects` were painted one after
/// the other onto an empty canvas: that of the last rectangle that covers
/// the cell.
pub open spec fn painted(rects: Seq<Rect>, x: int, y: int) -> Option<i32>
    decreases rects.len(),
{
    if rects.len() == 0 {
        None
    } else if rects.last().covers(x, y) {
        Some(rects.last().kind)
    } else {
        painted(rects.drop_last(), x, y)
    }
}

impl WallGrid {
    /// Whether every cell of the grid is marked as `rects` paint it.
    pub open spec fn shows(&self, rects: Seq<Rect>) -> bool {
        forall|x: int, y: int|
            0 <= x < self.cols() && 0 <= y < self.rows() ==> #[trigger] self.kind_at(x, y)
                == painted(rects, x, y)
    }

    /// Whether the markers recorded are those that `rects` paint, inside the
    /// grid and outside it.
    pub open spec fn records(&self, rects: Seq<Rect>) -> bool {
        forall|x: int, y: int| #[trigger]
            self.recorded(x, y) == if 0 <= x <= u32::MAX && 0 <= y <= u32::MAX {
                painted(rects, x, y)
            } else {
                None
            }
    }
}

/// What the canvas holds while `rect` is painted over `under`: the rows
/// below `y` of the rectangle are done, and of row `y` the cells before `x`.
spec fn paint_inv(canvas: &WallGrid, under: Seq<Rect>, rect: Rect, x: int, y: int) -> bool {
    forall|cx: int, cy: int| #[trigger]
        canvas.recorded(cx, cy) == if rect.left <= cx <= rect.right && rect.bottom <= cy
            <= rect.top && (cy < y || (cy == y && cx < x)) {
            Some(rect.kind)
        } else if 0 <= cx <= u32::MAX && 0 <= cy <= u32::MAX {
            painted(under, cx, cy)
        } else {
            None
        }
}

/// A canvas of the given size on which `rects` are painted one after the
/// other, a later rectangle over an earlier one.
pub fn paint(width: u32, height: u32, rects: &Vec<Rect>) -> (canvas: WallGrid)
    ensures
        canvas.cols() == width,
        canvas.rows() == height,
        canvas.records(rects@),
        canvas.shows(rects@),
{
    let mut canvas = WallGrid::new(width, height);
    let mut i: usize = 0;
    while i < rects.len()
        invariant
            i <= rects.len(),
            canvas.cols() == width,
            canvas.rows() == height,
            canvas.records(rects@.take(i as int)),
        decreases rects.len() - i,
    {
        let rect = rects[i];
        let ghost under = rects@.take(i as int);
        if rect.left <= rect.right && rect.bottom <= rect.top {
            let mut y: u64 = rect.bottom as u64;
            while y <= rect.top as u64
                invariant
                    rect.left <= rect.right,
                    rect.bottom <= y <= rect.top + 1,
                    canvas.cols() == width,
                    canvas.rows() == height,
                    paint_inv(&canvas, under, rect, rect.left as int, y as int),
                decreases rect.top + 1 - y,
            {
                let mut x: u64 = rect.left as u64;
                while x <= rect.right as u64
                    invariant
                        rect.bottom <= y <= rect.top,
                        rect.left <= x <= rect.right + 1,
                        canvas.cols() == width,
                        canvas.rows() == height,
                        paint_inv(&canvas, under, rect, x as int, y as int),
                    decreases rect.right + 1 - x,
                {
                    let ghost before = canvas;
                    canvas.insert(x as u32, y as u32, rect.kind);
                    proof {
                        assert forall|cx: int, cy: int|
                            before.recorded(cx, cy) == canvas.recorded(cx, cy) || (cx == x && cy
                                == y) by {}
                    }
                    x += 1;
                }
                y += 1;
            }
        }
        proof {
            assert(rects@.take(i + 1).drop_last() =~= under);
        }
        i += 1;
    }
    proof {
        assert(rects@.take(rects@.len() as int) =~= rects@);
    }
    canvas
}

/// A cell that shows a kind after painting lies in a rectangle of that kind.
pub proof fn lemma_painted_some(rects: Seq<Rect>, x: int, y: int) -> (i: int)
    requires
        painted(rects, x, y) is Some,
    ensures
        0 <= i < rects.len(),
        rects[i].covers(x, y),
        painted(rects, x, y) == Some(rects[i].kind),
    decreases rects.len(),
{
    if rects.last().covers(x, y) {
        rects.len() - 1
    } else {
        lemma_painted_some(rects.drop_last(), x, y)
    }
}

/// A cell that shows nothing after painting lies in no rectangle.
pub proof fn lemma_painted_none(rects: Seq<Rect>, x: int, y: int)
    requires
        painted(rects, x, y) is None,
    ensures
        forall|i: int| 0 <= i < rects.len() ==> !(#[trigger] rects[i]).covers(x, y),
    decreases rects.len(),
{
    if rects.len() > 0 {
        lemma_painted_none(rects.drop_last(), x, y);
        assert forall|i: int| 0 <= i < rects.len() implies !(#[trigger] rects[i]).covers(x, y) by {
            if i < rects.len() - 1 {
                assert(rects.drop_last()[i] == rects[i]);
            }
        }
    }
}

} // verus!
