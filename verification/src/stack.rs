//! Stacking: equal plates of neighbouring rows are merged into rectangles.

use crate::plate::Plate;
use crate::rect::Rect;
use crate::tables::{
    open_entries, open_map_get, open_map_insert, open_map_new, open_map_remove, OpenMap,
};
use vstd::prelude::*;

verus! {

/// The rows as sequences of plates.
pub open spec fn plate_rows(rows: Seq<Vec<Plate>>) -> Seq<Seq<Plate>> {
    Seq::new(rows.len(), |y: int| rows[y]@)
}

/// The plates of row `y`; no plates where there is no such row.
pub open spec fn row_at(rows: Seq<Seq<Plate>>, y: int) -> Seq<Plate> {
    if 0 <= y < rows.len() {
        rows[y]
    } else {
        Seq::empty()
    }
}

/// Whether row `y` holds `plate`.
pub open spec fn in_row(rows: Seq<Seq<Plate>>, y: int, plate: Plate) -> bool {
    row_at(rows, y).contains(plate)
}

/// Whether `row` lists its plates by strictly increasing left end.
pub open spec fn row_ordered(row: Seq<Plate>) -> bool {
    forall|i: int, j: int|
        0 <= i < j < row.len() ==> (#[trigger] row[i]).left < (#[trigger] row[j]).left
}

/// Whether every row lists its plates by strictly increasing left end.
pub open spec fn rows_ordered(rows: Seq<Seq<Plate>>) -> bool {
    forall|y: int| 0 <= y < rows.len() ==> row_ordered(#[trigger] rows[y])
}

/// Whether `rect` is a stack of `rows`: each of its rows holds its plate, and
/// the rows just below and just above do not.
pub open spec fn is_stack(rows: Seq<Seq<Plate>>, rect: Rect) -> bool {
    &&& rect.bottom <= rect.top
    &&& forall|y: int| rect.bottom <= y <= rect.top ==> #[trigger] in_row(rows, y, rect.plate())
    &&& !in_row(rows, rect.bottom - 1, rect.plate())
    &&& !in_row(rows, rect.top + 1, rect.plate())
}

/// The order in which rectangles are finished: by top row, and within one
/// top row from left to right.
pub open spec fn closes_before(a: Rect, b: Rect) -> bool {
    a.top < b.top || (a.top == b.top && a.left < b.left)
}

/// Whether `rects` lists the stacks of `rows`: each of them once, in the
/// order in which they are finished.
pub open spec fn is_stacking(rows: Seq<Seq<Plate>>, rects: Seq<Rect>) -> bool {
    &&& forall|i: int| 0 <= i < rects.len() ==> is_stack(rows, #[trigger] rects[i])
    &&& forall|rect: Rect| #[trigger] is_stack(rows, rect) ==> rects.contains(rect)
    &&& forall|i: int, j: int|
        0 <= i < j < rects.len() ==> closes_before(#[trigger] rects[i], #[trigger] rects[j])
}

/// Whether `plate` is among the plates of `row`.
pub fn row_contains(row: &Vec<Plate>, plate: Plate) -> (found: bool)
    ensures
        found == row@.contains(plate),
{
    let mut i: usize = 0;
    while i < row.len()
        invariant
            i <= row.len(),
            forall|j: int| 0 <= j < i ==> row@[j] != plate,
        decreases row.len() - i,
    {
        if row[i] == plate {
            return true;
        }
        i += 1;
    }
    false
}

/// Whether `rect` has grown from its bottom row up to row `y - 1`.
spec fn grown_to(rows: Seq<Seq<Plate>>, y: int, plate: Plate, rect: Rect) -> bool {
    &&& rect.plate() == plate
    &&& rect.bottom <= rect.top
    &&& rect.top == y - 1
    &&& forall|r: int| rect.bottom <= r < y ==> #[trigger] in_row(rows, r, plate)
    &&& !in_row(rows, rect.bottom - 1, plate)
}

/// Whether `rect` was finished before row `y`, or at row `y` out of one of
/// the first `done` plates of the row below.
spec fn finished_by(rect: Rect, y: int, below: Seq<Plate>, done: int) -> bool {
    rect.top + 1 < y || (rect.top + 1 == y && below.take(done).contains(rect.plate()))
}

/// Whether `out` lists the stacks that are finished by row `y` and the first
/// `done` plates of the row below.
spec fn finished_inv(
    rows: Seq<Seq<Plate>>,
    y: int,
    below: Seq<Plate>,
    done: int,
    out: Seq<Rect>,
) -> bool {
    &&& forall|i: int|
        0 <= i < out.len() ==> is_stack(rows, #[trigger] out[i]) && finished_by(
            out[i],
            y,
            below,
            done,
        )
    &&& forall|rect: Rect| #[trigger]
        is_stack(rows, rect) && finished_by(rect, y, below, done) ==> out.contains(rect)
    &&& forall|i: int, j: int|
        0 <= i < j < out.len() ==> closes_before(#[trigger] out[i], #[trigger] out[j])
}

/// The open rectangles while the plates of the row below row `y` are looked
/// through: those of its first `done` plates that row `y` lacks are gone.
spec fn closing_inv(
    rows: Seq<Seq<Plate>>,
    y: int,
    below: Seq<Plate>,
    here: Seq<Plate>,
    done: int,
    open: Map<(u32, u32, i32), Rect>,
) -> bool {
    &&& forall|plate: Plate| #[trigger]
        open.contains_key(plate.key()) <==> below.contains(plate) && (here.contains(plate)
            || !below.take(done).contains(plate))
    &&& forall|plate: Plate| #[trigger]
        open.contains_key(plate.key()) ==> grown_to(rows, y, plate, open[plate.key()])
}

/// The open rectangles while the plates of row `y` are taken in: those of
/// its first `done` plates have grown to row `y` or start there.
spec fn growing_inv(
    rows: Seq<Seq<Plate>>,
    y: int,
    below: Seq<Plate>,
    here: Seq<Plate>,
    done: int,
    open: Map<(u32, u32, i32), Rect>,
) -> bool {
    &&& forall|plate: Plate| #[trigger]
        open.contains_key(plate.key()) <==> (below.contains(plate) && here.contains(plate))
            || here.take(done).contains(plate)
    &&& forall|plate: Plate| #[trigger]
        open.contains_key(plate.key()) ==> grown_to(
            rows,
            if here.take(done).contains(plate) {
                y + 1
            } else {
                y
            },
            plate,
            open[plate.key()],
        )
}

/// One more element taken from a sequence.
proof fn lemma_take_next<T>(s: Seq<T>, i: int, value: T)
    requires
        0 <= i < s.len(),
    ensures
        s.take(i + 1).contains(value) <==> s.take(i).contains(value) || s[i] == value,
{
    let shorter = s.take(i);
    let longer = s.take(i + 1);
    if longer.contains(value) {
        let j = choose|j: int| 0 <= j < longer.len() && longer[j] == value;
        if j < i {
            assert(shorter[j] == value);
        }
    }
    if shorter.contains(value) {
        let j = choose|j: int| 0 <= j < shorter.len() && shorter[j] == value;
        assert(longer[j] == value);
    }
    if s[i] == value {
        assert(longer[i] == value);
    }
}

/// Two rectangles of one plate that have both grown to row `y - 1` from a
/// bottom row that cannot be extended downwards are the same rectangle.
proof fn lemma_grown_unique(rows: Seq<Seq<Plate>>, y: int, plate: Plate, a: Rect, b: Rect)
    requires
        grown_to(rows, y, plate, a),
        grown_to(rows, y, plate, b),
    ensures
        a == b,
{
    if a.bottom < b.bottom {
        assert(in_row(rows, b.bottom - 1, plate));
    }
    if b.bottom < a.bottom {
        assert(in_row(rows, a.bottom - 1, plate));
    }
}

/// One plate of the row below row `y` looked at, and found in row `y`: its
/// rectangle stays open.
proof fn lemma_keep_open(
    rows: Seq<Seq<Plate>>,
    y: int,
    below: Seq<Plate>,
    here: Seq<Plate>,
    done: int,
    open: Map<(u32, u32, i32), Rect>,
    out: Seq<Rect>,
)
    requires
        0 <= done < below.len(),
        here == row_at(rows, y),
        here.contains(below[done]),
        closing_inv(rows, y, below, here, done, open),
        finished_inv(rows, y, below, done, out),
    ensures
        closing_inv(rows, y, below, here, done + 1, open),
        finished_inv(rows, y, below, done + 1, out),
{
    let plate = below[done];
    assert forall|other: Plate|
        below.take(done + 1).contains(other) <==> below.take(done).contains(other) || other
            == plate by {
        lemma_take_next(below, done, other);
    }
    assert forall|rect: Rect| #[trigger]
        is_stack(rows, rect) && finished_by(rect, y, below, done + 1) implies out.contains(
        rect,
    ) by {
        if rect.top + 1 == y && rect.plate() == plate {
            assert(in_row(rows, y, plate));
        }
    }
}

/// One plate of the row below row `y` looked at, and not found in row `y`:
/// its rectangle is finished and leaves the open ones.
proof fn lemma_close_one(
    rows: Seq<Seq<Plate>>,
    y: int,
    below: Seq<Plate>,
    here: Seq<Plate>,
    done: int,
    open: Map<(u32, u32, i32), Rect>,
    out: Seq<Rect>,
)
    requires
        0 <= done < below.len(),
        row_ordered(below),
        here == row_at(rows, y),
        !here.contains(below[done]),
        closing_inv(rows, y, below, here, done, open),
        finished_inv(rows, y, below, done, out),
    ensures
        open.contains_key(below[done].key()),
        closing_inv(rows, y, below, here, done + 1, open.remove(below[done].key())),
        finished_inv(rows, y, below, done + 1, out.push(open[below[done].key()])),
{
    let plate = below[done];
    let rect = open[plate.key()];
    let out_after = out.push(rect);
    assert forall|other: Plate|
        below.take(done + 1).contains(other) <==> below.take(done).contains(other) || other
            == plate by {
        lemma_take_next(below, done, other);
    }
    assert(!below.take(done).contains(plate)) by {
        if below.take(done).contains(plate) {
            let j = choose|j: int| 0 <= j < below.take(done).len() && below.take(done)[j] == plate;
            assert(below[j].left < below[done].left);
        }
    }
    assert(open.contains_key(plate.key()));
    assert(is_stack(rows, rect)) by {
        assert forall|r: int| rect.bottom <= r <= rect.top implies #[trigger] in_row(
            rows,
            r,
            rect.plate(),
        ) by {}
    }
    assert forall|other: Rect| #[trigger]
        is_stack(rows, other) && finished_by(other, y, below, done + 1) implies out_after.contains(
        other,
    ) by {
        if finished_by(other, y, below, done) {
            let i = choose|i: int| 0 <= i < out.len() && out[i] == other;
            assert(out_after[i] == other);
        } else {
            assert(grown_to(rows, y, plate, other)) by {
                assert forall|r: int| other.bottom <= r < y implies #[trigger] in_row(
                    rows,
                    r,
                    plate,
                ) by {}
            }
            lemma_grown_unique(rows, y, plate, rect, other);
            assert(out_after[out.len() as int] == other);
        }
    }
    assert forall|i: int, j: int| 0 <= i < j < out_after.len() implies closes_before(
        #[trigger] out_after[i],
        #[trigger] out_after[j],
    ) by {
        if j == out.len() && out[i].top + 1 == y {
            // both were finished at row `y`: they come in the order of
            // their plates in the row below
            let first = out[i].plate();
            let k = choose|k: int| 0 <= k < below.take(done).len() && below.take(done)[k] == first;
            assert(below[k].left < below[done].left);
        }
    }
}

/// Finishes the open rectangles whose plate row `y` does not repeat.
///
/// `below` is the row below row `y` and `here` is row `y`. The finished
/// rectangles are appended to `out` in the order of `below`.
fn close_finished(
    open: &mut OpenMap,
    out: &mut Vec<Rect>,
    below: &Vec<Plate>,
    here: &Vec<Plate>,
    Ghost(rows): Ghost<Seq<Seq<Plate>>>,
    Ghost(y): Ghost<int>,
)
    requires
        row_ordered(below@),
        here@ == row_at(rows, y),
        closing_inv(rows, y, below@, here@, 0, open_entries(*old(open))),
        finished_inv(rows, y, below@, 0, old(out)@),
    ensures
        closing_inv(rows, y, below@, here@, below@.len() as int, open_entries(*final(open))),
        finished_inv(rows, y, below@, below@.len() as int, final(out)@),
{
    let mut i: usize = 0;
    while i < below.len()
        invariant
            i <= below.len(),
            row_ordered(below@),
            here@ == row_at(rows, y),
            closing_inv(rows, y, below@, here@, i as int, open_entries(*open)),
            finished_inv(rows, y, below@, i as int, out@),
        decreases below.len() - i,
    {
        let plate = below[i];
        if !row_contains(here, plate) {
            proof {
                lemma_close_one(rows, y, below@, here@, i as int, open_entries(*open), out@);
            }
            // the finished rectangle leaves the map, so that the same plate
            // further up starts a new one
            let removed = open_map_remove(open, (plate.left, plate.right, plate.kind));
            if let Some(rect) = removed {
                out.push(rect);
            }
        } else {
            proof {
                lemma_keep_open(rows, y, below@, here@, i as int, open_entries(*open), out@);
            }
        }
        i += 1;
    }
}

/// A rectangle that is open for a plate of row `y` not yet taken in has grown
/// to the row below.
proof fn lemma_open_below(
    rows: Seq<Seq<Plate>>,
    y: int,
    below: Seq<Plate>,
    here: Seq<Plate>,
    done: int,
    open: Map<(u32, u32, i32), Rect>,
)
    requires
        0 <= done < here.len(),
        row_ordered(here),
        growing_inv(rows, y, below, here, done, open),
        open.contains_key(here[done].key()),
    ensures
        grown_to(rows, y, here[done], open[here[done].key()]),
{
    let plate = here[done];
    if here.take(done).contains(plate) {
        let j = choose|j: int| 0 <= j < here.take(done).len() && here.take(done)[j] == plate;
        assert(here[j].left < here[done].left);
    }
}

/// One plate of row `y` taken in: its rectangle grows by one row, or a new
/// rectangle starts at row `y`.
proof fn lemma_grow_one(
    rows: Seq<Seq<Plate>>,
    y: int,
    below: Seq<Plate>,
    here: Seq<Plate>,
    done: int,
    open: Map<(u32, u32, i32), Rect>,
    grown: Rect,
)
    requires
        0 <= done < here.len(),
        row_ordered(here),
        here == row_at(rows, y),
        below == row_at(rows, y - 1),
        growing_inv(rows, y, below, here, done, open),
        grown.plate() == here[done],
        open.contains_key(here[done].key()) ==> grown.bottom == open[here[done].key()].bottom
            && grown.top == open[here[done].key()].top + 1,
        !open.contains_key(here[done].key()) ==> grown.bottom == y && grown.top == y,
    ensures
        0 <= y < rows.len(),
        open.contains_key(here[done].key()) ==> open[here[done].key()].top + 1 == y,
        growing_inv(rows, y, below, here, done + 1, open.insert(here[done].key(), grown)),
{
    let plate = here[done];
    assert forall|other: Plate|
        here.take(done + 1).contains(other) <==> here.take(done).contains(other) || other
            == plate by {
        lemma_take_next(here, done, other);
    }
    assert(!here.take(done).contains(plate)) by {
        if here.take(done).contains(plate) {
            let j = choose|j: int| 0 <= j < here.take(done).len() && here.take(done)[j] == plate;
            assert(here[j].left < here[done].left);
        }
    }
    assert(grown_to(rows, y + 1, plate, grown)) by {
        assert forall|r: int| grown.bottom <= r < y + 1 implies #[trigger] in_row(
            rows,
            r,
            plate,
        ) by {}
    }
}

/// Takes the plates of row `y` into the open rectangles: a rectangle that is
/// open for a plate grows by one row, and every other plate starts a new
/// rectangle at row `y`.
fn take_in(
    open: &mut OpenMap,
    here: &Vec<Plate>,
    y: u32,
    Ghost(rows): Ghost<Seq<Seq<Plate>>>,
    Ghost(below): Ghost<Seq<Plate>>,
)
    requires
        row_ordered(here@),
        here@ == row_at(rows, y as int),
        below == row_at(rows, y - 1),
        growing_inv(rows, y as int, below, here@, 0, open_entries(*old(open))),
    ensures
        growing_inv(rows, y as int, below, here@, here@.len() as int, open_entries(*final(open))),
{
    let mut i: usize = 0;
    while i < here.len()
        invariant
            i <= here.len(),
            row_ordered(here@),
            here@ == row_at(rows, y as int),
            below == row_at(rows, y - 1),
            growing_inv(rows, y as int, below, here@, i as int, open_entries(*open)),
        decreases here.len() - i,
    {
        let plate = here[i];
        let key = (plate.left, plate.right, plate.kind);
        let ghost before = open_entries(*open);
        match open_map_get(open, key) {
            Some(rect) => {
                proof {
                    lemma_open_below(rows, y as int, below, here@, i as int, before);
                }
                let grown = Rect {
                    left: rect.left,
                    right: rect.right,
                    bottom: rect.bottom,
                    top: rect.top + 1,
                    kind: rect.kind,
                };
                proof {
                    lemma_grow_one(rows, y as int, below, here@, i as int, before, grown);
                }
                open_map_insert(open, key, grown);
            },
            None => {
                let started = Rect {
                    left: plate.left,
                    right: plate.right,
                    bottom: y,
                    top: y,
                    kind: plate.kind,
                };
                proof {
                    lemma_grow_one(rows, y as int, below, here@, i as int, before, started);
                }
                open_map_insert(open, key, started);
            },
        }
        i += 1;
    }
}

/// Between the two steps of one row: every plate of the row below has been
/// looked at, and none of the row itself has been taken in.
proof fn lemma_closed_to_growing(
    rows: Seq<Seq<Plate>>,
    y: int,
    below: Seq<Plate>,
    here: Seq<Plate>,
    open: Map<(u32, u32, i32), Rect>,
)
    requires
        closing_inv(rows, y, below, here, below.len() as int, open),
    ensures
        growing_inv(rows, y, below, here, 0, open),
{
    assert(below.take(below.len() as int) =~= below);
}

/// From one row to the next: the row taken in becomes the row below.
proof fn lemma_next_row(
    rows: Seq<Seq<Plate>>,
    y: int,
    below: Seq<Plate>,
    here: Seq<Plate>,
    open: Map<(u32, u32, i32), Rect>,
    out: Seq<Rect>,
)
    requires
        below == row_at(rows, y - 1),
        here == row_at(rows, y),
        growing_inv(rows, y, below, here, here.len() as int, open),
        finished_inv(rows, y, below, below.len() as int, out),
    ensures
        closing_inv(rows, y + 1, here, row_at(rows, y + 1), 0, open),
        finished_inv(rows, y + 1, here, 0, out),
{
    assert(below.take(below.len() as int) =~= below);
    assert(here.take(here.len() as int) =~= here);
    assert forall|rect: Rect| #[trigger]
        is_stack(rows, rect) && finished_by(rect, y + 1, here, 0) implies out.contains(rect) by {
        if rect.top + 1 == y {
            assert(in_row(rows, rect.top as int, rect.plate()));
        }
    }
}

/// The rectangles that the rows of plates stack up to, in the order in which
/// they are finished.
///
/// The rows are taken from the bottom up. A rectangle that is open for
/// a plate of the row below is finished when the row does not repeat that
/// plate, and grows by one row when it does; a plate without an open
/// rectangle starts one. One empty row is taken after the last, which
/// finishes the rectangles that touch the top.
///
/// Each row lists its plates from left to right, as a scan of the row finds
/// them, and the number of a row fits in a `u32`.
pub fn stack_plates(rows: &Vec<Vec<Plate>>) -> (rects: Vec<Rect>)
    requires
        rows.len() <= u32::MAX,
        rows_ordered(plate_rows(rows@)),
    ensures
        is_stacking(plate_rows(rows@), rects@),
{
    let ghost all = plate_rows(rows@);
    let n = rows.len();
    let empty: Vec<Plate> = Vec::new();
    let mut open = open_map_new();
    let mut out: Vec<Rect> = Vec::new();
    let mut below: &Vec<Plate> = &empty;
    let mut y: u64 = 0;
    while y <= n as u64
        invariant
            n == rows.len(),
            n <= u32::MAX,
            all == plate_rows(rows@),
            rows_ordered(all),
            empty@.len() == 0,
            y <= n + 1,
            below@ == row_at(all, y - 1),
            row_ordered(below@),
            closing_inv(all, y as int, below@, row_at(all, y as int), 0, open_entries(open)),
            finished_inv(all, y as int, below@, 0, out@),
        decreases n + 1 - y,
    {
        let here: &Vec<Plate> = if y < n as u64 {
            &rows[y as usize]
        } else {
            &empty
        };
        assert(here@ =~= row_at(all, y as int));
        close_finished(&mut open, &mut out, below, here, Ghost(all), Ghost(y as int));
        proof {
            lemma_closed_to_growing(all, y as int, below@, here@, open_entries(open));
        }
        take_in(&mut open, here, y as u32, Ghost(all), Ghost(below@));
        proof {
            lemma_next_row(all, y as int, below@, here@, open_entries(open), out@);
        }
        below = here;
        y += 1;
    }
    proof {
        assert forall|rect: Rect| #[trigger] is_stack(all, rect) implies out@.contains(rect) by {
            assert(in_row(all, rect.top as int, rect.plate()));
        }
    }
    out
}

} // verus!
