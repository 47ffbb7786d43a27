//! Aiming: the direction a player's stick points in.

use vstd::prelude::*;
use crate::components::{AimDirection, PlayerBundle};
use crate::vector::Vector;
use crate::world::{Player, World};

verus! {

/// A stick axis held within full deflection, one thousand either way.
pub open spec fn spec_clamp_axis(value: i32) -> i32 {
    if value < -1000 {
        -1000i32
    } else if value > 1000 {
        1000i32
    } else {
        value
    }
}

/// A stick axis held within full deflection.
pub fn clamp_axis(value: i32) -> (r: i32)
    ensures
        r == spec_clamp_axis(value),
{
    if value < -1000 {
        -1000
    } else if value > 1000 {
        1000
    } else {
        value
    }
}

impl World {
    /// Points the player's aim where the stick points, each axis held within
    /// full deflection. An unknown player is ignored.
    pub fn update_aim(&mut self, player: usize, stick: Vector)
        ensures
            final(self).players@ == match old(self).spec_player(player as int) {
                Some(p) => old(self).players@.update(
                    player as int,
                    Some(
                        Player {
                            bundle: PlayerBundle {
                                aim_direction: AimDirection(
                                    Vector {
                                        x: spec_clamp_axis(stick.x),
                                        y: spec_clamp_axis(stick.y),
                                    },
                                ),
                                ..p.bundle
                            },
                            ..p
                        },
                    ),
                ),
                None => old(self).players@,
            },
            final(self).sandbox == old(self).sandbox,
            final(self).rocks == old(self).rocks,
            final(self).clusters == old(self).clusters,
            final(self).grab_state == old(self).grab_state,
    {
        if let Some(p) = self.player(player) {
            let aim = AimDirection(Vector { x: clamp_axis(stick.x), y: clamp_axis(stick.y) });
            self.players.set(
                player,
                Some(Player { bundle: PlayerBundle { aim_direction: aim, ..p.bundle }, ..p }),
            );
        }
    }
}

} // verus!
