//! Walking and jumping: what the character controller is asked to do, and
//! how many jumps a player has left in mid-air.

use vstd::prelude::*;
use crate::components::{ExtraJumps, PlayerBundle};
use crate::vector::{clamp_i32, clamped};
use crate::world::{Player, World};

verus! {

/// Walking speed at full stick deflection.
pub const WALK_SPEED: i64 = 800;

/// What a player's controls say in one step. `direction` is the horizontal
/// stick deflection in thousandths.
#[derive(Clone, Copy, Debug, PartialEq, Eq, Structural)]
pub struct Controls {
    pub direction: i32,
    pub jump_pressed: bool,
    pub jump_just_pressed: bool,
    pub airborne: bool,
}

/// What the character controller is asked to do in one step: the walking
/// velocity to reach, and, if the player wants to jump, whether the jump may
/// start in mid-air.
#[derive(Clone, Copy, Debug, PartialEq, Eq)]
pub struct Movement {
    pub desired_velocity: i32,
    pub jump: Option<bool>,
}

impl ExtraJumps {
    /// The counter after one step: a fresh press of the jump button uses one
    /// jump up, and standing on the ground restores them all.
    pub open spec fn stepped(self, controls: Controls) -> ExtraJumps {
        if !controls.airborne {
            ExtraJumps { current: self.max, ..self }
        } else if controls.jump_just_pressed && self.current > i32::MIN {
            ExtraJumps { current: (self.current - 1) as i32, ..self }
        } else {
            self
        }
    }

    /// Whether a jump may start in mid-air: a jump is left.
    pub open spec fn spec_allow(self) -> bool {
        self.current > 0
    }

    /// Advances the counter by one step.
    pub fn step(&mut self, controls: Controls)
        ensures
            *final(self) == old(self).stepped(controls),
    {
        if controls.jump_just_pressed && self.current > i32::MIN {
            self.current = self.current - 1;
        }
        if !controls.airborne {
            self.current = self.max;
        }
    }
}

/// What the character controller is asked to do, given the jumps left
/// before this step.
pub open spec fn spec_movement(jumps: ExtraJumps, controls: Controls) -> Movement {
    Movement {
        desired_velocity: clamped(controls.direction * WALK_SPEED) as i32,
        jump: if controls.jump_pressed {
            Some(jumps.spec_allow())
        } else {
            None
        },
    }
}

impl World {
    /// Applies a player's controls for one step: says what to ask of the
    /// character controller and advances the player's jump counter. An
    /// unknown player asks for nothing.
    pub fn apply_controls(&mut self, player: usize, controls: Controls) -> (asked: Option<Movement>)
        ensures
            asked == match old(self).spec_player(player as int) {
                Some(p) => Some(spec_movement(p.bundle.jumps, controls)),
                None => None,
            },
            final(self).players@ == match old(self).spec_player(player as int) {
                Some(p) => old(self).players@.update(
                    player as int,
                    Some(
                        Player {
                            bundle: PlayerBundle {
                                jumps: p.bundle.jumps.stepped(controls),
                                ..p.bundle
                            },
                            ..p
                        },
                    ),
                ),
                None => old(self).players@,
            },
            final(self).sandbox == old(self).sandbox,
            final(self).rocks == old(self).rocks,
            final(self).clusters == old(self).clusters,
            final(self).grab_state == old(self).grab_state,
    {
        match self.player(player) {
            Some(p) => {
                let asked = Movement {
                    desired_velocity: clamp_i32(controls.direction as i128 * 800),
                    jump: if controls.jump_pressed {
                        Some(p.bundle.jumps.current > 0)
                    } else {
                        None
                    },
                };
                let mut jumps = p.bundle.jumps;
                jumps.step(controls);
                self.players.set(
                    player,
                    Some(Player { bundle: PlayerBundle { jumps, ..p.bundle }, ..p }),
                );
                Some(asked)
            },
            None => None,
        }
    }
}

} // verus!
