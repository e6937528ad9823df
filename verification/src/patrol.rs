//! The way of a hostile entity along its patrol points, there and back.

use vstd::prelude::*;

verus! {

/// Where a patrol goes after it has reached one of its points.
#[derive(Clone, Copy, Debug, PartialEq, Eq, Structural)]
pub struct PatrolTurn {
    /// The point to walk to next.
    pub index: usize,
    /// Whether the patrol walks up its points.
    pub forward: bool,
    /// The new facing of the sprite where the patrol turns round: mirrored
    /// at the last point, not mirrored at the first.
    pub flip_x: Option<bool>,
}

/// The turn that a patrol of `points` points takes at the point `index`,
/// which it has reached walking `forward` or back. It turns round at its
/// first and at its last point, and walks on in its direction at any other.
pub fn patrol_turn(points: usize, index: usize, forward: bool) -> (turn: PatrolTurn)
    requires
        points > 1,
        index < points,
    ensures
        turn.forward == if index == 0 {
            true
        } else if index == points - 1 {
            false
        } else {
            forward
        },
        turn.flip_x == if index == 0 {
            Some(false)
        } else if index == points - 1 {
            Some(true)
        } else {
            None::<bool>
        },
        turn.index == if turn.forward {
            index + 1
        } else {
            index - 1
        },
        turn.index < points,
{
    let mut forward = forward;
    let mut flip_x: Option<bool> = None;
    if index == 0 {
        forward = true;
        flip_x = Some(false);
    } else if index == points - 1 {
        forward = false;
        flip_x = Some(true);
    }
    let next = if forward {
        index + 1
    } else {
        index - 1
    };
    PatrolTurn { index: next, forward, flip_x }
}

} // verus!
