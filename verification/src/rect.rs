//! Rectangles of cells, the output of the collider builder.

use crate::plate::Plate;
use vstd::prelude::*;

verus! {

/// The cells `left..=right` by `bottom..=top`, all carrying the marker `kind`.
#[derive(Clone, Copy, Debug, PartialEq, Eq, Hash, Structural)]
pub struct Rect {
    pub left: u32,
    pub right: u32,
    pub bottom: u32,
    pub top: u32,
    pub kind: i32,
}

impl Rect {
    /// The run that every row of the rectangle repeats.
    pub open spec fn plate(self) -> Plate {
        Plate { left: self.left, right: self.right, kind: self.kind }
    }

    /// Whether the cell `(x, y)` lies in the rectangle.
    pub open spec fn covers(self, x: int, y: int) -> bool {
        self.left <= x <= self.right && self.bottom <= y <= self.top
    }
}

/// Whether one of `rects` covers the cell `(x, y)`.
pub open spec fn covered(rects: Seq<Rect>, x: int, y: int) -> bool {
    exists|i: int| 0 <= i < rects.len() && #[trigger] rects[i].covers(x, y)
}

/// Whether no cell lies in two of `rects`.
pub open spec fn disjoint(rects: Seq<Rect>) -> bool {
    forall|i: int, j: int, x: int, y: int|
        0 <= i < rects.len() && 0 <= j < rects.len() && i != j ==> !(#[trigger] rects[i].covers(
            x,
            y,
        ) && #[trigger] rects[j].covers(x, y))
}

} // verus!
