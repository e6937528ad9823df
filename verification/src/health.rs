//! The hearts of the player, and the damage that hostile entities deal.

use vstd::prelude::*;

verus! {

/// Hearts that the player starts with.
pub const FULL_HEALTH: u8 = 6;

/// The hearts that the player has left.
#[derive(Clone, Copy, Debug, PartialEq, Eq, Structural)]
pub struct HealthBar {
    pub health: u8,
}

impl Default for HealthBar {
    fn default() -> (bar: Self)
        ensures
            bar.health == FULL_HEALTH,
    {
        HealthBar { health: FULL_HEALTH }
    }
}

impl HealthBar {
    /// The player runs into an entity that deals `damage` hearts. With more
    /// hearts than that left the player loses `damage` hearts and goes on
    /// being hurt while the contact lasts, which is what is returned;
    /// otherwise no heart is left.
    pub fn take_hit(&mut self, damage: u8) -> (hurt: bool)
        ensures
            hurt == (old(self).health > damage),
            final(self).health == if old(self).health > damage {
                old(self).health - damage
            } else {
                0
            },
    {
        if self.health > damage {
            self.health -= damage;
            true
        } else {
            self.health = 0;
            false
        }
    }

    /// One more second in contact with an entity that deals `damage` hearts.
    /// With more hearts than that left the player loses one heart, and the
    /// loss is returned as `true`; otherwise no heart is left.
    pub fn keep_hurting(&mut self, damage: u8) -> (hurt: bool)
        ensures
            hurt == (old(self).health > damage),
            final(self).health == if old(self).health > damage {
                old(self).health - 1
            } else {
                0
            },
    {
        if self.health > damage {
            self.health -= 1;
            true
        } else {
            self.health = 0;
            false
        }
    }

    /// Whether no heart is left: the game is over.
    pub fn is_spent(&self) -> (spent: bool)
        ensures
            spent == (self.health == 0),
    {
        self.health == 0
    }
}

/// Calls `==` of `str`, which compares two strings character by character.
#[verifier::external_body]
fn same_text(a: &str, b: &str) -> (same: bool)
    ensures
        same == (a@ == b@),
{
    a == b
}

/// The hearts that a hostile entity takes on contact.
#[derive(Clone, Copy, Debug, PartialEq, Eq, Structural)]
pub struct DamageCount(pub u8);

impl DamageCount {
    /// The damage that the hostile entity with the given identifier deals;
    /// none for an identifier that names no hostile entity.
    pub open spec fn of(identifier: Seq<char>) -> u8 {
        if identifier == "Sand_Ghoul"@ || identifier == "Adept_Necromancer"@ {
            1
        } else if identifier == "Grave_Revenant"@ {
            2
        } else if identifier == "Mutilated_Stumbler"@ {
            3
        } else {
            0
        }
    }

    /// The damage that the hostile entity with the given identifier deals.
    pub fn for_identifier(identifier: &str) -> (damage: Self)
        ensures
            damage.0 == Self::of(identifier@),
    {
        if same_text(identifier, "Sand_Ghoul") || same_text(identifier, "Adept_Necromancer") {
            DamageCount(1)
        } else if same_text(identifier, "Grave_Revenant") {
            DamageCount(2)
        } else if same_text(identifier, "Mutilated_Stumbler") {
            DamageCount(3)
        } else {
            DamageCount(0)
        }
    }
}

/// Whether the hostile entity with the given identifier can blind the
/// player: the adept necromancer can, and no other.
pub fn has_blinding_power(identifier: &str) -> (blinds: bool)
    ensures
        blinds == (identifier@ == "Adept_Necromancer"@),
{
    same_text(identifier, "Adept_Necromancer")
}

} // verus!
