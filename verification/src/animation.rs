//! The tiles of a sprite sheet that an animation runs through.

use vstd::prelude::*;

verus! {

/// The tiles of an animation in the order in which they are shown, and the
/// place of the tile shown last.
#[derive(Debug)]
pub struct AnimationIndice {
    pub indices: Vec<usize>,
    pub current_index: usize,
}

impl Default for AnimationIndice {
    /// An animation without tiles.
    fn default() -> (indice: Self)
        ensures
            indice.indices@.len() == 0,
            indice.current_index == 0,
    {
        AnimationIndice { indices: Vec::new(), current_index: 0 }
    }
}

/// The tiles from `start` up to `last`, both included; none if `last` comes
/// before `start`.
pub open spec fn tiles_between(start: int, last: int) -> Seq<usize> {
    if start <= last {
        Seq::new((last - start + 1) as nat, |i: int| (start + i) as usize)
    } else {
        Seq::empty()
    }
}

impl AnimationIndice {
    /// An animation through the tiles from `start_indice` up to
    /// `last_indice`, both included, that starts at the first of them.
    pub fn new(start_indice: usize, last_indice: usize) -> (indice: Self)
        ensures
            indice.indices@ == tiles_between(start_indice as int, last_indice as int),
            indice.current_index == 0,
    {
        let mut indices: Vec<usize> = Vec::new();
        if start_indice <= last_indice {
            let mut i: usize = start_indice;
            while i < last_indice
                invariant
                    start_indice <= i <= last_indice,
                    indices@.len() == i - start_indice,
                    forall|j: int| 0 <= j < indices@.len() ==> indices@[j] == start_indice + j,
                decreases last_indice - i,
            {
                indices.push(i);
                i += 1;
            }
            indices.push(last_indice);
        }
        proof {
            assert(indices@ =~= tiles_between(start_indice as int, last_indice as int));
        }
        AnimationIndice { indices, current_index: 0 }
    }

    /// An animation through the given tiles, in their order, that starts at
    /// the first of them.
    pub fn new_with_custom_tiles(tiles: Vec<usize>) -> (indice: Self)
        ensures
            indice.indices@ == tiles@,
            indice.current_index == 0,
    {
        AnimationIndice { indices: tiles, current_index: 0 }
    }

    /// The tile to show after the tile `shown`. After the last tile of the
    /// animation comes the first; after any other, the tile at the next
    /// place, and the first once the places run out.
    pub fn advance(&mut self, shown: usize) -> (next: usize)
        requires
            old(self).indices@.len() > 0,
            old(self).current_index < usize::MAX,
        ensures
            final(self).indices@ == old(self).indices@,
            final(self).current_index == if shown == old(self).indices@.last() {
                0
            } else if old(self).current_index + 1 >= old(self).indices@.len() {
                0
            } else {
                old(self).current_index + 1
            },
            next == old(self).indices@[final(self).current_index as int],
    {
        if shown == self.indices[self.indices.len() - 1] {
            self.current_index = 0;
            self.indices[self.current_index]
        } else {
            self.current_index += 1;
            if self.current_index >= self.indices.len() {
                self.current_index = 0;
            }
            self.indices[self.current_index]
        }
    }
}

} // verus!
