//! Carrying a cluster: pulling it towards its holder, measuring how it
//! really moves, and letting it go.

use vstd::prelude::*;
use crate::components::{HeldObject, PlayerBundle, Radius};
use crate::grab::{ActualVelocity, GrabState, ParentObject, NORMAL_GRAVITY};
use crate::vector::{clamp_i32, clamped, floor_div, floor_sqrt, isqrt, Vector, SCALE};
use crate::world::{slot, Player, World};

verus! {

/// Pull of the carry spring, per second.
pub const SPRING: i64 = 400;

/// What the spring's pull is divided by when a cluster has no mass yet, in
/// fixed-point steps.
pub const MASSLESS_DIVISOR: u32 = 64_000;

/// How much faster a cluster flies off when it is let go.
pub const TOSS: i32 = 2;

/// A mass as the physics engine reports it: a number of thousandths, or
/// something that is no finite number.
#[derive(Clone, Copy, Debug, PartialEq, Eq)]
pub enum MeasuredMass {
    Finite(u32),
    NotFinite,
}

/// The mass a cluster is taken to have: what was measured, and none where
/// the measurement is no finite number, so that such a cluster is carried
/// like one that has no mass yet.
pub open spec fn spec_effective_mass(measured: MeasuredMass) -> u32 {
    match measured {
        MeasuredMass::Finite(mass) => mass,
        MeasuredMass::NotFinite => 0,
    }
}

/// The mass a cluster is taken to have.
pub fn effective_mass(measured: MeasuredMass) -> (mass: u32)
    ensures
        mass == spec_effective_mass(measured),
        measured == MeasuredMass::NotFinite ==> spec_carry_divisor(mass) == MASSLESS_DIVISOR,
{
    match measured {
        MeasuredMass::Finite(mass) => mass,
        MeasuredMass::NotFinite => 0,
    }
}

/// What the spring's pull on a cluster is divided by: the square root of
/// its mass, or a fixed number while it has no mass.
pub open spec fn spec_carry_divisor(mass: u32) -> nat {
    if mass == 0 {
        MASSLESS_DIVISOR as nat
    } else {
        floor_sqrt((mass * SCALE) as nat)
    }
}

/// The velocity that pulls a held cluster from `position` towards
/// `desired`: the distance times the spring's pull, divided by the carry
/// divisor.
pub open spec fn spec_carry_velocity(desired: Vector, position: Vector, mass: u32) -> Vector {
    let divisor = spec_carry_divisor(mass) as int;
    Vector {
        x: clamped(((desired.x - position.x) * SPRING * SCALE) / divisor) as i32,
        y: clamped(((desired.y - position.y) * SPRING * SCALE) / divisor) as i32,
    }
}

/// What the spring's pull on a cluster is divided by.
pub fn carry_divisor(mass: u32) -> (d: u32)
    ensures
        d == spec_carry_divisor(mass),
        d > 0,
{
    if mass == 0 {
        MASSLESS_DIVISOR
    } else {
        let d = isqrt(mass as u64 * 1000);
        proof {
            if d == 0 {
                assert((0 + 1) * (0 + 1) == 1) by (nonlinear_arith);
            }
        }
        d
    }
}

/// The velocity that pulls a held cluster from `position` towards `desired`.
pub fn carry_velocity(desired: Vector, position: Vector, mass: u32) -> (v: Vector)
    ensures
        v == spec_carry_velocity(desired, position, mass),
{
    let divisor: i128 = carry_divisor(mass) as i128;
    let dx: i128 = (desired.x as i128 - position.x as i128) * 400 * 1000;
    let dy: i128 = (desired.y as i128 - position.y as i128) * 400 * 1000;
    Vector { x: clamp_i32(floor_div(dx, divisor)), y: clamp_i32(floor_div(dy, divisor)) }
}

/// The clusters after the first `count` players have pulled what they
/// hold: a cluster that is marked as held moves towards its holder's target.
pub open spec fn carried(
    players: Seq<Option<Player>>,
    clusters: Seq<Option<ParentObject>>,
    count: nat,
) -> Seq<Option<ParentObject>>
    decreases count,
{
    if count == 0 {
        clusters
    } else {
        let before = carried(players, clusters, (count - 1) as nat);
        pulled(before, slot(players, count - 1))
    }
}

/// The clusters after one player has pulled what it holds.
pub open spec fn pulled(clusters: Seq<Option<ParentObject>>, player: Option<Player>) -> Seq<
    Option<ParentObject>,
> {
    match player {
        Some(p) => match p.bundle.held.0 {
            Some(c) => match slot(clusters, c as int) {
                Some(cluster) => if cluster.held is Some {
                    clusters.update(
                        c as int,
                        Some(
                            ParentObject {
                                velocity: spec_carry_velocity(
                                    p.spec_hold_target(),
                                    cluster.position,
                                    cluster.mass,
                                ),
                                ..cluster
                            },
                        ),
                    )
                } else {
                    clusters
                },
                None => clusters,
            },
            None => clusters,
        },
        None => clusters,
    }
}

/// A cluster after its position was sampled: the measured velocity is the
/// movement since the previous sample.
pub open spec fn sampled(cluster: ParentObject, position: Vector) -> ParentObject {
    ParentObject {
        position,
        actual: ActualVelocity {
            linvel: Vector {
                x: clamped(position.x - cluster.actual.previous_pos.x) as i32,
                y: clamped(position.y - cluster.actual.previous_pos.y) as i32,
            },
            previous_pos: position,
        },
        ..cluster
    }
}

/// A cluster after it was let go: nobody holds it, it has its weight back,
/// and it flies off faster.
pub open spec fn tossed(cluster: ParentObject) -> ParentObject {
    ParentObject {
        held: None,
        gravity_scale: NORMAL_GRAVITY,
        velocity: Vector {
            x: clamped(cluster.velocity.x * TOSS) as i32,
            y: clamped(cluster.velocity.y * TOSS) as i32,
        },
        ..cluster
    }
}

impl World {
    /// What letting go leaves behind, `self` being the world before and
    /// `after` the world after. A player that holds something holds nothing
    /// afterwards and nobody is holding; if what it held is a cluster marked
    /// as held, that cluster is tossed.
    pub open spec fn released(&self, after: &World, player: usize) -> bool {
        &&& after.sandbox == self.sandbox
        &&& after.rocks@ == self.rocks@
        &&& match self.spec_player(player as int) {
            Some(p) => match p.bundle.held.0 {
                Some(c) => {
                    &&& after.players@ == self.players@.update(
                        player as int,
                        Some(
                            Player { bundle: PlayerBundle { held: HeldObject(None), ..p.bundle }, ..p },
                        ),
                    )
                    &&& after.grab_state == GrabState::Empty
                    &&& after.clusters@ == if self.spec_is_held(c as int) {
                        self.clusters@.update(
                            c as int,
                            Some(tossed(self.spec_cluster(c as int).unwrap())),
                        )
                    } else {
                        self.clusters@
                    }
                },
                None => {
                    &&& after.players@ == self.players@
                    &&& after.clusters@ == self.clusters@
                    &&& after.grab_state == self.grab_state
                },
            },
            None => {
                &&& after.players@ == self.players@
                &&& after.clusters@ == self.clusters@
                &&& after.grab_state == self.grab_state
            },
        }
    }

    /// Lets go of what the player holds.
    pub fn release_held(&mut self, player: usize)
        requires
            old(self).wf(),
        ensures
            final(self).wf(),
            old(self).released(final(self), player),
    {
        let p: Player = match self.player(player) {
            Some(p) => p,
            None => {
                return ;
            },
        };
        let c: usize = match p.bundle.held.0 {
            Some(c) => c,
            None => {
                return ;
            },
        };
        self.players.set(
            player,
            Some(Player { bundle: PlayerBundle { held: HeldObject(None), ..p.bundle }, ..p }),
        );
        self.grab_state = GrabState::Empty;
        if let Some(cluster) = self.cluster(c) {
            if cluster.held.is_some() {
                self.clusters.set(
                    c,
                    Some(
                        ParentObject {
                            held: None,
                            gravity_scale: NORMAL_GRAVITY,
                            velocity: cluster.velocity.times(TOSS),
                            ..cluster
                        },
                    ),
                );
            }
        }
    }

    /// Pulls every held cluster towards its holder's target.
    pub fn move_object(&mut self)
        requires
            old(self).wf(),
        ensures
            final(self).wf(),
            final(self).clusters@ == carried(
                old(self).players@,
                old(self).clusters@,
                old(self).players@.len(),
            ),
            final(self).sandbox == old(self).sandbox,
            final(self).rocks == old(self).rocks,
            final(self).players == old(self).players,
            final(self).grab_state == old(self).grab_state,
    {
        let count: usize = self.players.len();
        let mut k: usize = 0;
        while k < count
            invariant
                k <= count,
                count == self.players@.len(),
                self.clusters@ == carried(old(self).players@, old(self).clusters@, k as nat),
                self.clusters@.len() == old(self).clusters@.len(),
                self.sandbox == old(self).sandbox,
                self.rocks == old(self).rocks,
                self.players == old(self).players,
                self.grab_state == old(self).grab_state,
            decreases count - k,
        {
            if let Some(p) = self.players[k] {
                if let Some(c) = p.bundle.held.0 {
                    if let Some(cluster) = self.cluster(c) {
                        if cluster.held.is_some() {
                            let velocity = carry_velocity(
                                p.hold_target(),
                                cluster.position,
                                cluster.mass,
                            );
                            self.clusters.set(c, Some(ParentObject { velocity, ..cluster }));
                        }
                    }
                }
            }
            k += 1;
        }
    }

    /// Records where a cluster now is and measures its velocity from the
    /// movement since the previous sample. An unknown cluster is ignored.
    pub fn update_actual_velocity(&mut self, cluster: usize, position: Vector)
        requires
            old(self).wf(),
        ensures
            final(self).wf(),
            final(self).clusters@ == match old(self).spec_cluster(cluster as int) {
                Some(c) => old(self).clusters@.update(cluster as int, Some(sampled(c, position))),
                None => old(self).clusters@,
            },
            final(self).sandbox == old(self).sandbox,
            final(self).rocks == old(self).rocks,
            final(self).players == old(self).players,
            final(self).grab_state == old(self).grab_state,
    {
        if let Some(c) = self.cluster(cluster) {
            self.clusters.set(
                cluster,
                Some(
                    ParentObject {
                        position,
                        actual: ActualVelocity {
                            linvel: position.minus(c.actual.previous_pos),
                            previous_pos: position,
                        },
                        ..c
                    },
                ),
            );
        }
    }

    /// Answers the release of the carve button: the player's carve radius
    /// falls back to its smallest value.
    pub fn release_grab(&mut self, player: usize)
        ensures
            final(self).players@ == match old(self).spec_player(player as int) {
                Some(p) => old(self).players@.update(
                    player as int,
                    Some(
                        Player {
                            bundle: PlayerBundle {
                                radius: Radius { current: p.bundle.radius.min, ..p.bundle.radius },
                                ..p.bundle
                            },
                            ..p
                        },
                    ),
                ),
                None => old(self).players@,
            },
            final(self).sandbox == old(self).sandbox,
            final(self).rocks == old(self).rocks,
            final(self).clusters == old(self).clusters,
            final(self).grab_state == old(self).grab_state,
    {
        if let Some(p) = self.player(player) {
            self.players.set(
                player,
                Some(
                    Player {
                        bundle: PlayerBundle {
                            radius: Radius { current: p.bundle.radius.min, ..p.bundle.radius },
                            ..p.bundle
                        },
                        ..p
                    },
                ),
            );
        }
    }
}

} // verus!
