//! A player's state and the rule that puts it back to its spawn values.

use vstd::prelude::*;
use crate::id::{Id, IdGen};
use crate::scalar::{Single, Vec2};

verus! {

/// What the world knows of one player.
///
/// `target_velocity` is the player's input: the direction asked for, which
/// the velocity follows only gradually.
#[derive(Clone, Copy, Debug, PartialEq, Eq, Structural)]
pub struct Player {
    pub id: Id,
    pub oxygen: Single,
    pub position: Vec2,
    pub velocity: Vec2,
    pub target_velocity: Vec2,
}

impl Player {
    /// Speed that a full input asks for, in units per second: the bit
    /// pattern of `2.0`.
    pub const SPEED: u32 = 0x4000_0000;

    /// Largest change of velocity per second: the bit pattern of `2.0`.
    pub const ACCELERATION: u32 = 0x4000_0000;

    /// Oxygen of a player that has just spawned, and the most one can hold:
    /// the bit pattern of `10.0`.
    pub const MAX_OXYGEN: u32 = 0x4120_0000;

    /// The player `id` as it spawns: full oxygen, at rest at the origin,
    /// with no input.
    pub open spec fn spawned(id: Id) -> Player {
        Player {
            id,
            oxygen: Single { bits: Player::MAX_OXYGEN },
            position: Vec2::spec_zero(),
            velocity: Vec2::spec_zero(),
            target_velocity: Vec2::spec_zero(),
        }
    }

    /// Whether the player has run out of oxygen: its oxygen is below zero.
    pub open spec fn is_out_of_oxygen(self) -> bool {
        self.oxygen.is_negative()
    }

    /// The player after death: the same player, as it spawns.
    pub open spec fn respawned(self) -> Player {
        Player::spawned(self.id)
    }

    /// The player after a tick of the authority: respawned if it had run out
    /// of oxygen, unchanged if not.
    pub open spec fn ticked(self) -> Player {
        if self.is_out_of_oxygen() {
            self.respawned()
        } else {
            self
        }
    }

    /// A new player, under the next identifier that `id_gen` issues.
    pub fn new(id_gen: &mut IdGen) -> (player: Player)
        requires
            !old(id_gen).is_exhausted(),
        ensures
            player == Player::spawned(Id::spec_from_raw(old(id_gen).next())),
            player.id.spec_raw() == old(id_gen).next(),
            final(id_gen).next() == old(id_gen).next() + 1,
    {
        let mut player = Player {
            id: id_gen.gen(),
            oxygen: Single::zero(),
            position: Vec2::zero(),
            velocity: Vec2::zero(),
            target_velocity: Vec2::zero(),
        };
        player.reset();
        player
    }

    /// Puts the player back to its spawn values. The identifier stays.
    pub fn reset(&mut self)
        ensures
            *final(self) == old(self).respawned(),
    {
        self.oxygen = Single::from_bits(Player::MAX_OXYGEN);
        self.position = Vec2::zero();
        self.velocity = Vec2::zero();
        self.target_velocity = Vec2::zero();
    }

    /// Tests whether the player has run out of oxygen.
    pub fn out_of_oxygen(&self) -> (r: bool)
        ensures
            r == self.is_out_of_oxygen(),
    {
        self.oxygen.below_zero()
    }
}

} // verus!
