//! The tutorial of the first level: three keys, to be pressed in order.

use vstd::prelude::*;

verus! {

/// Whether the tutorial is running.
#[derive(Clone, Copy, Debug, PartialEq, Eq, Hash, Structural)]
pub enum TutorialState {
    OnGoing,
    Finished,
}

/// The keys of the tutorial that the player has pressed so far.
#[derive(Clone, Copy, Debug, PartialEq, Eq, Structural)]
pub struct TutorialInfo {
    pub has_pressed_d_key: bool,
    pub has_pressed_a_key: bool,
    pub has_pressed_space_bar: bool,
}

impl Default for TutorialInfo {
    fn default() -> (info: Self)
        ensures
            !info.has_pressed_d_key,
            !info.has_pressed_a_key,
            !info.has_pressed_space_bar,
    {
        TutorialInfo {
            has_pressed_d_key: false,
            has_pressed_a_key: false,
            has_pressed_space_bar: false,
        }
    }
}

impl TutorialInfo {
    /// Takes note of the keys that are held down. The player goes through
    /// the steps in order: `A` counts only once `D` has been pressed, and the
    /// space bar only once both have; each call takes one step at most.
    pub fn progress(&mut self, d_pressed: bool, a_pressed: bool, space_pressed: bool)
        ensures
            final(self).has_pressed_d_key == (old(self).has_pressed_d_key || d_pressed),
            final(self).has_pressed_a_key == (old(self).has_pressed_a_key || (old(
                self,
            ).has_pressed_d_key && a_pressed)),
            final(self).has_pressed_space_bar == (old(self).has_pressed_space_bar || (old(
                self,
            ).has_pressed_d_key && old(self).has_pressed_a_key && space_pressed)),
    {
        if !self.has_pressed_d_key {
            if d_pressed {
                self.has_pressed_d_key = true;
            }
        } else if !self.has_pressed_a_key {
            if a_pressed {
                self.has_pressed_a_key = true;
            }
        } else if !self.has_pressed_space_bar {
            if space_pressed {
                self.has_pressed_space_bar = true;
            }
        }
    }

    /// Whether the tutorial goes on or has come to its end: it goes on
    /// until, in the order of the steps, the first key not yet pressed is
    /// found, and there is none left once the space bar has been pressed
    /// after the two others.
    pub fn state(&self) -> (state: TutorialState)
        ensures
            state == if self.has_pressed_d_key && self.has_pressed_a_key
                && self.has_pressed_space_bar {
                TutorialState::Finished
            } else {
                TutorialState::OnGoing
            },
    {
        if !self.has_pressed_d_key {
            TutorialState::OnGoing
        } else if !self.has_pressed_a_key {
            TutorialState::OnGoing
        } else if !self.has_pressed_space_bar {
            TutorialState::OnGoing
        } else {
            TutorialState::Finished
        }
    }

    /// The line that tells the player which key to press next; none once
    /// every key has been pressed.
    pub fn hint(&self) -> (text: Option<&'static str>)
        ensures
            text is Some <==> !(self.has_pressed_d_key && self.has_pressed_a_key
                && self.has_pressed_space_bar),
            text is Some ==> text->0@ == if !self.has_pressed_d_key {
                "Press of `D` key to move right."@
            } else if !self.has_pressed_a_key {
                "Press of `A` key to move left."@
            } else {
                "Press the Space Bar key to jump."@
            },
    {
        if !self.has_pressed_d_key {
            Some("Press of `D` key to move right.")
        } else if !self.has_pressed_a_key {
            Some("Press of `A` key to move left.")
        } else if !self.has_pressed_space_bar {
            Some("Press the Space Bar key to jump.")
        } else {
            None
        }
    }
}

/// Whether entering the level with the given number starts the tutorial:
/// only the first level has one.
pub fn starts_tutorial(level: i32) -> (starts: bool)
    ensures
        starts == (level == 0),
{
    level == 0
}

} // verus!
