//! The kinds of wall markers, and what touching each of them means.

use vstd::prelude::*;

verus! {

/// Kind of a plain wall.
pub const WALL: i32 = 1;

/// Kind of the markers that lie out of the world: touching them ends the
/// game.
pub const OUT_OF_WORLD: i32 = 2;

/// Kind of the markers of the way into the next level.
pub const NEXT_LEVEL: i32 = 3;

/// What a collider reports when the player touches it.
#[derive(Clone, Copy, Debug, PartialEq, Eq, Structural)]
pub enum Trigger {
    OutOfWorld,
    NextLevel,
}

/// The kind of a wall marker, from the two tags that a marker may carry.
/// A marker with both tags leads to the next level.
pub fn marker_kind(out_of_world: bool, next_level: bool) -> (kind: i32)
    ensures
        kind == if next_level {
            NEXT_LEVEL
        } else if out_of_world {
            OUT_OF_WORLD
        } else {
            WALL
        },
{
    match (out_of_world, next_level) {
        (true, false) => OUT_OF_WORLD,
        (false, true) => NEXT_LEVEL,
        (false, false) => WALL,
        _ => NEXT_LEVEL,
    }
}

/// The trigger that a collider of the given kind carries; a plain wall, and
/// any other kind, carries none and reports no contact.
pub fn trigger_of(kind: i32) -> (trigger: Option<Trigger>)
    ensures
        trigger == if kind == OUT_OF_WORLD {
            Some(Trigger::OutOfWorld)
        } else if kind == NEXT_LEVEL {
            Some(Trigger::NextLevel)
        } else {
            None
        },
{
    if kind == OUT_OF_WORLD {
        Some(Trigger::OutOfWorld)
    } else if kind == NEXT_LEVEL {
        Some(Trigger::NextLevel)
    } else {
        None
    }
}

/// What a contact between two entities means for the player.
#[derive(Clone, Copy, Debug, PartialEq, Eq, Structural)]
pub enum Contact {
    /// The contact does not concern the player, or is with a plain wall.
    Nothing,
    /// The player has reached the end of the level: the next level starts.
    NextLevel,
    /// The player has fallen out of the world: the game is over.
    OutOfWorld,
}

/// Whether `entity` is one of the two entities `one` and `two`.
pub open spec fn involves(one: u64, two: u64, entity: u64) -> bool {
    one == entity || two == entity
}

/// What the contact that has started between the entities `one` and `two`
/// means, where `player` is the player, `exit` carries the trigger of the
/// next level and `pits` carry those that lie out of the world. The exit
/// goes before the pits.
pub fn player_contact(one: u64, two: u64, player: u64, exit: u64, pits: &Vec<u64>) -> (contact:
    Contact)
    ensures
        contact == if !involves(one, two, player) {
            Contact::Nothing
        } else if involves(one, two, exit) {
            Contact::NextLevel
        } else if exists|i: int| 0 <= i < pits@.len() && involves(one, two, #[trigger] pits@[i]) {
            Contact::OutOfWorld
        } else {
            Contact::Nothing
        },
{
    if one == player || two == player {
        if two == exit || one == exit {
            return Contact::NextLevel;
        }
        let mut i: usize = 0;
        while i < pits.len()
            invariant
                i <= pits.len(),
                involves(one, two, player),
                !involves(one, two, exit),
                forall|j: int| 0 <= j < i ==> !involves(one, two, #[trigger] pits@[j]),
            decreases pits.len() - i,
        {
            if two == pits[i] || one == pits[i] {
                assert(involves(one, two, pits@[i as int]));
                return Contact::OutOfWorld;
            }
            i += 1;
        }
    }
    Contact::Nothing
}

} // verus!
