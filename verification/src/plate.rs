//! Plates: the runs of equal markers within one row.

use crate::grid::WallGrid;
use vstd::prelude::*;

verus! {

/// A run of cells `left..=right` of one row that all carry the marker `kind`.
#[derive(Clone, Copy, Debug, PartialEq, Eq, Hash, Structural)]
pub struct Plate {
    pub left: u32,
    pub right: u32,
    pub kind: i32,
}

impl Plate {
    /// The key under which a growing rectangle made of this plate is kept.
    pub open spec fn key(self) -> (u32, u32, i32) {
        (self.left, self.right, self.kind)
    }
}

impl WallGrid {
    /// Whether `plate` is a plate of row `y`: all its cells carry its kind,
    /// and the cells next to its two ends do not.
    pub open spec fn has_plate(&self, y: int, plate: Plate) -> bool {
        &&& plate.left <= plate.right
        &&& forall|x: int|
            plate.left <= x <= plate.right ==> self.kind_at(x, y) == Some(plate.kind)
        &&& self.kind_at(plate.left - 1, y) != Some(plate.kind)
        &&& self.kind_at(plate.right + 1, y) != Some(plate.kind)
    }

    /// Whether `plates` lists the plates of row `y`: each of them once, from
    /// left to right.
    pub open spec fn row_is(&self, y: int, plates: Seq<Plate>) -> bool {
        &&& forall|i: int| 0 <= i < plates.len() ==> self.has_plate(y, #[trigger] plates[i])
        &&& forall|plate: Plate| #[trigger] self.has_plate(y, plate) ==> plates.contains(plate)
        &&& forall|i: int, j: int|
            0 <= i < j < plates.len() ==> (#[trigger] plates[i]).left < (#[trigger] plates[j]).left
    }
}

/// A plate lies inside the grid.
pub proof fn lemma_plate_in_grid(grid: &WallGrid, y: int, plate: Plate)
    requires
        grid.has_plate(y, plate),
    ensures
        0 <= y < grid.rows(),
        plate.left <= plate.right < grid.cols(),
{
    assert(grid.kind_at(plate.right as int, y) == Some(plate.kind));
}

/// What holds of a scan of row `y` that has read the cells before `x`.
///
/// `run` is the run that the scan is inside of, as its first cell and its
/// kind. The plates found so far are those that end before that run, or
/// before `x` when the scan is between runs.
spec fn scan_inv(
    grid: &WallGrid,
    y: int,
    x: int,
    run: Option<(u32, i32)>,
    plates: Seq<Plate>,
) -> bool {
    let frontier = match run {
        Some((start, _)) => start as int,
        None => x,
    };
    &&& 0 <= x <= grid.cols() + 1
    &&& forall|i: int|
        0 <= i < plates.len() ==> grid.has_plate(y, #[trigger] plates[i]) && plates[i].right
            < frontier
    &&& forall|i: int, j: int|
        0 <= i < j < plates.len() ==> (#[trigger] plates[i]).right < (#[trigger] plates[j]).left
    &&& forall|plate: Plate| #[trigger]
        grid.has_plate(y, plate) && plate.right < frontier ==> plates.contains(plate)
    &&& match run {
        Some((start, kind)) => {
            &&& start < x <= grid.cols()
            &&& forall|c: int| start <= c < x ==> grid.kind_at(c, y) == Some(kind)
            &&& grid.kind_at(start - 1, y) != Some(kind)
        },
        None => x > 0 ==> grid.kind_at(x - 1, y) is None,
    }
}

/// A plate that ends inside the run `start..x` of kind `kind` ends at its
/// last cell, and is the whole run.
proof fn lemma_plate_in_run(grid: &WallGrid, y: int, x: int, start: u32, kind: i32, plate: Plate)
    requires
        start < x,
        forall|c: int| start <= c < x ==> grid.kind_at(c, y) == Some(kind),
        grid.kind_at(start - 1, y) != Some(kind),
        grid.has_plate(y, plate),
        start <= plate.right < x,
    ensures
        plate.right == x - 1,
        plate.left == start,
        plate.kind == kind,
{
    assert(grid.kind_at(plate.right as int, y) == Some(kind));
    assert(grid.kind_at(plate.right as int, y) == Some(plate.kind));
    if plate.right < x - 1 {
        assert(grid.kind_at(plate.right + 1, y) == Some(kind));
    }
    if plate.left > start {
        assert(grid.kind_at(plate.left - 1, y) == Some(kind));
    }
    if plate.left < start {
        assert(grid.kind_at(start - 1, y) == Some(plate.kind));
    }
}

/// The plates of row `y`, from left to right.
///
/// The row is read cell by cell, and once more past its last cell, where
/// a run that touches the right edge is closed.
pub fn row_plates(grid: &WallGrid, y: u32) -> (plates: Vec<Plate>)
    ensures
        grid.row_is(y as int, plates@),
{
    let width = grid.width();
    let mut plates: Vec<Plate> = Vec::new();
    let mut run: Option<(u32, i32)> = None;
    let mut x: u64 = 0;
    while x <= width as u64
        invariant
            width == grid.cols(),
            scan_inv(grid, y as int, x as int, run, plates@),
        decreases width + 1 - x,
    {
        let here = if x < width as u64 {
            grid.get(x as u32, y)
        } else {
            None
        };
        assert(here == grid.kind_at(x as int, y as int));
        let ghost before = plates@;
        match (run, here) {
            (Some((start, kind)), Some(id)) => {
                if id != kind {
                    let plate = Plate { left: start, right: (x - 1) as u32, kind };
                    plates.push(plate);
                    run = Some((x as u32, id));
                    proof {
                        lemma_scan_close(grid, y as int, x as int, start, kind, before, plate);
                    }
                }
            },
            (Some((start, kind)), None) => {
                let plate = Plate { left: start, right: (x - 1) as u32, kind };
                plates.push(plate);
                run = None;
                proof {
                    lemma_scan_close(grid, y as int, x as int, start, kind, before, plate);
                }
            },
            (None, Some(id)) => {
                run = Some((x as u32, id));
            },
            (None, None) => {},
        }
        x += 1;
    }
    proof {
        assert forall|plate: Plate| #[trigger]
            grid.has_plate(y as int, plate) implies plates@.contains(plate) by {
            lemma_plate_in_grid(grid, y as int, plate);
        }
    }
    plates
}

/// Closing the run `start..x` at `x`, where the kind changes: with the run
/// added as a plate, the plates found are those that end before `x`.
proof fn lemma_scan_close(
    grid: &WallGrid,
    y: int,
    x: int,
    start: u32,
    kind: i32,
    before: Seq<Plate>,
    plate: Plate,
)
    requires
        scan_inv(grid, y, x, Some((start, kind)), before),
        grid.kind_at(x, y) != Some(kind),
        plate == (Plate { left: start, right: (x - 1) as u32, kind }),
    ensures
        grid.has_plate(y, plate),
        forall|i: int|
            0 <= i < before.push(plate).len() ==> grid.has_plate(
                y,
                #[trigger] before.push(plate)[i],
            ) && before.push(plate)[i].right < x,
        forall|i: int, j: int|
            0 <= i < j < before.push(plate).len() ==> (#[trigger] before.push(plate)[i]).right < (
            #[trigger] before.push(plate)[j]).left,
        forall|other: Plate| #[trigger]
            grid.has_plate(y, other) && other.right < x ==> before.push(plate).contains(other),
{
    let after = before.push(plate);
    assert(grid.has_plate(y, plate));
    assert forall|other: Plate| #[trigger]
        grid.has_plate(y, other) && other.right < x implies after.contains(other) by {
        if other.right < start {
            assert(before.contains(other));
            let i = choose|i: int| 0 <= i < before.len() && before[i] == other;
            assert(after[i] == other);
        } else {
            lemma_plate_in_run(grid, y, x, start, kind, other);
            assert(after[before.len() as int] == plate);
        }
    }
}

} // verus!
