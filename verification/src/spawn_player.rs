//! Players joining with a gamepad and leaving when it disconnects.

use vstd::prelude::*;
use crate::components::{PlayerBundle, PlayerHealth};
use crate::player::{
    gamepads_default, gamepads_get, gamepads_insert, gamepads_len, gamepads_remove, used_gamepads,
    UsedGamepads,
};
use crate::vector::Vector;
use crate::world::{Player, World};

verus! {

/// The health a player joins with.
pub const STARTING_HEALTH: i64 = 50_000_000;

/// The player that joins as number `index`.
pub open spec fn spec_new_player(index: usize) -> Player {
    Player {
        position: Vector { x: 0, y: 0 },
        index,
        bundle: PlayerBundle {
            health: PlayerHealth(STARTING_HEALTH),
            ..PlayerBundle::spec_default()
        },
    }
}

impl UsedGamepads {
    /// The player each gamepad controls.
    pub open spec fn view(&self) -> Map<usize, usize> {
        used_gamepads(self)
    }

    /// A table without gamepads.
    pub fn new() -> (used: UsedGamepads)
        ensures
            used@ == Map::<usize, usize>::empty(),
    {
        gamepads_default()
    }

    /// The player a gamepad controls, if it is in use.
    pub fn player_of(&self, gamepad: usize) -> (player: Option<usize>)
        ensures
            player == if self@.dom().contains(gamepad) {
                Some(self@[gamepad])
            } else {
                None::<usize>
            },
    {
        gamepads_get(self, gamepad)
    }

    /// Number of gamepads in use.
    pub fn len(&self) -> (n: usize)
        ensures
            n == self@.dom().len(),
    {
        gamepads_len(self)
    }

    /// Answers a button on a gamepad. A gamepad that controls no player yet
    /// gets a new one, numbered by how many gamepads were in use before, with
    /// full health and nothing in hand. Returns the new player's handle.
    pub fn spawn_player(&mut self, world: &mut World, gamepad: usize) -> (joined: Option<usize>)
        requires
            old(world).wf(),
        ensures
            final(world).wf(),
            final(world).sandbox == old(world).sandbox,
            final(world).rocks == old(world).rocks,
            final(world).clusters == old(world).clusters,
            final(world).grab_state == old(world).grab_state,
            if old(self)@.dom().contains(gamepad) {
                &&& joined is None
                &&& final(self)@ == old(self)@
                &&& final(world).players@ == old(world).players@
            } else {
                &&& joined == Some(old(world).players.len())
                &&& final(self)@ == old(self)@.insert(gamepad, old(world).players.len())
                &&& final(world).players@ == old(world).players@.push(
                    Some(spec_new_player(old(self)@.dom().len() as usize)),
                )
            },
    {
        let index: usize = gamepads_len(self);
        if gamepads_get(self, gamepad).is_some() {
            return None;
        }
        let handle: usize = world.players.len();
        world.players.push(
            Some(
                Player {
                    position: Vector::zero(),
                    index,
                    bundle: PlayerBundle {
                        health: PlayerHealth(STARTING_HEALTH),
                        ..PlayerBundle::default()
                    },
                },
            ),
        );
        gamepads_insert(self, gamepad, handle);
        Some(handle)
    }

    /// Answers a gamepad disconnecting: the player it controlled, if any, is
    /// removed, and the gamepad is free again. Returns that player's handle.
    pub fn despawn_on_disconnect(&mut self, world: &mut World, gamepad: usize) -> (left: Option<
        usize,
    >)
        requires
            old(world).wf(),
        ensures
            final(world).wf(),
            final(world).sandbox == old(world).sandbox,
            final(world).rocks == old(world).rocks,
            final(world).clusters == old(world).clusters,
            final(world).grab_state == old(world).grab_state,
            if old(self)@.dom().contains(gamepad) {
                let player = old(self)@[gamepad];
                &&& left == Some(player)
                &&& final(self)@ == old(self)@.remove(gamepad)
                &&& final(world).players@ == if player < old(world).players@.len() {
                    old(world).players@.update(player as int, None)
                } else {
                    old(world).players@
                }
            } else {
                &&& left is None
                &&& final(self)@ == old(self)@
                &&& final(world).players@ == old(world).players@
            },
    {
        match gamepads_get(self, gamepad) {
            Some(player) => {
                if player < world.players.len() {
                    world.players.set(player, None);
                }
                gamepads_remove(self, gamepad);
                Some(player)
            },
            None => None,
        }
    }
}

} // verus!
