//! What rocks do to players, and the thresholds every collision is judged
//! by. Lengths, speeds and masses are in thousandths of a unit.

use vstd::prelude::*;
use crate::components::{PlayerBundle, PlayerHealth};
use crate::grab::{ParentObject, Rock};
use crate::vector::{
    clamped, floor_sqrt, isqrt, lemma_floor_sqrt, lemma_scaled_length, lemma_square_monotone,
    lemma_unit_length, scaled_component, spec_scaled_component, spec_slack, Vector,
};
use crate::world::{Body, CollisionEvent, Player, World};

verus! {

/// Momentum lead at which one cluster shatters the other and survives:
/// 20 000 units of speed times mass, each in thousandths.
pub const OVERPOWERDIFFERENCE: u64 = 20_000_000_000;

/// Speed below which a cluster neither hurts a player nor shatters: 500
/// units per second.
pub const VELOCITYTHRESHOLD: u32 = 500_000;

/// Speed below which touching the ground does nothing: 5 units per second.
pub const GROUNDVELOCITYTHRESHOLD: u32 = 5_000;

/// Speed from which a rock hitting the ground craters it: 10 units per
/// second.
pub const BREAKGROUNDVELOCITYTHRESHOLD: u32 = 10_000;

/// How many cells a crater reaches from its centre in every direction.
pub const BREAKRADIUS: u32 = 1;

/// Gap between a cluster's speed and its measured speed below which the
/// cluster counts as carried rather than flying: 200 units per second.
pub const VELOCITYVSEXTERNALDIFFERENCE: u32 = 200_000;

/// Height below which a rock counts as lost: 1000 units below the origin.
pub const DESPAWNFALLENY: i32 = -1_000_000;

/// Knockback per unit of damage.
pub const KNOCKBACK: u64 = 5000;

/// A push on a body.
#[derive(Clone, Copy, Debug, PartialEq, Eq)]
pub struct Impulse {
    pub x: i64,
    pub y: i64,
}

/// A rock hurting a player: who, by which rock, how much health it costs,
/// and the push the player receives away from the rock.
#[derive(Clone, Copy, Debug, PartialEq, Eq)]
pub struct Hit {
    pub player: usize,
    pub rock: usize,
    pub damage: u32,
    pub impulse: Impulse,
}

/// The push of a hit: `away` points from the player to the rock, and the
/// push goes the other way, with the strength of the damage times the
/// knockback, to within the slack of rounding (see
/// [`law_knockback_has_its_strength`]). A rock exactly where the player
/// stands pushes nowhere.
pub open spec fn spec_knockback(away: Vector, damage: u32) -> Impulse {
    let direction = away.spec_normalize_or_zero();
    Impulse {
        x: (-spec_scaled_component(direction.x as int, damage * KNOCKBACK)) as i64,
        y: (-spec_scaled_component(direction.y as int, damage * KNOCKBACK)) as i64,
    }
}

/// The push of a hit.
pub fn knockback(away: Vector, damage: u32) -> (push: Impulse)
    ensures
        push == spec_knockback(away, damage),
{
    let direction = away.normalize_or_zero();
    let strength: u64 = damage as u64 * 5000;
    proof {
        if away.spec_length_squared() > 0 {
            lemma_unit_length(away);
            lemma_scaled_length(direction.x as int, direction.y as int, strength as int);
        }
    }
    let x: i128 = scaled_component(direction.x, strength);
    let y: i128 = scaled_component(direction.y, strength);
    Impulse { x: (-x) as i64, y: (-y) as i64 }
}

/// The push of a hit is as strong as the damage times the knockback: not
/// stronger, and weaker by no more than the slack of rounding, two
/// millionths of the strength and four steps.
pub proof fn law_knockback_has_its_strength(away: Vector, damage: u32)
    requires
        away.spec_length_squared() > 0,
    ensures
        ({
            let push = spec_knockback(away, damage);
            let strength = damage * KNOCKBACK;
            &&& push.x * push.x + push.y * push.y <= strength * strength
            &&& strength >= spec_slack(strength) ==> push.x * push.x + push.y * push.y >= (strength
                - spec_slack(strength)) * (strength - spec_slack(strength))
        }),
{
    let direction = away.spec_normalize_or_zero();
    let strength = damage * KNOCKBACK;
    lemma_unit_length(away);
    lemma_scaled_length(direction.x as int, direction.y as int, strength);
    let a = spec_scaled_component(direction.x as int, strength);
    let b = spec_scaled_component(direction.y as int, strength);
    assert((-a) * (-a) == a * a && (-b) * (-b) == b * b) by (nonlinear_arith);
}

/// The damage a cluster deals: the square root of speed times mass.
pub open spec fn spec_damage(cluster: ParentObject) -> nat {
    floor_sqrt(cluster.spec_momentum())
}

/// The damage a cluster deals: the square root of speed times mass.
pub fn damage(cluster: &ParentObject) -> (d: u32)
    ensures
        d == spec_damage(*cluster),
{
    isqrt(cluster.momentum())
}

/// Health after losing `damage`; it cannot fall below the least health
/// there is.
pub open spec fn spec_wounded(health: i64, damage: u32) -> i64 {
    if health - damage < i64::MIN {
        i64::MIN
    } else {
        (health - damage) as i64
    }
}

/// Health after losing `damage`.
pub fn wounded(health: i64, damage: u32) -> (h: i64)
    ensures
        h == spec_wounded(health, damage),
{
    if health < i64::MIN + damage as i64 {
        i64::MIN
    } else {
        health - damage as i64
    }
}

/// Health after the hits that name the player, in order.
pub open spec fn health_after(health: i64, hits: Seq<Hit>, player: int) -> i64
    decreases hits.len(),
{
    if hits.len() == 0 {
        health
    } else {
        let before = health_after(health, hits.drop_last(), player);
        if hits.last().player == player {
            spec_wounded(before, hits.last().damage)
        } else {
            before
        }
    }
}

/// A player after the given hits: only the health has changed.
pub open spec fn struck_player(player: Option<Player>, handle: int, hits: Seq<Hit>) -> Option<
    Player,
> {
    match player {
        Some(p) => Some(
            Player {
                bundle: PlayerBundle {
                    health: PlayerHealth(health_after(p.bundle.health.0, hits, handle)),
                    ..p.bundle
                },
                ..p
            },
        ),
        None => None,
    }
}

impl World {
    /// The way from a player to a rock.
    pub open spec fn spec_away(&self, rock: usize, player: usize) -> Vector {
        let from = self.spec_player(player as int).unwrap().position;
        let to = self.spec_rock(rock as int).unwrap().position;
        Vector { x: clamped(to.x - from.x) as i32, y: clamped(to.y - from.y) as i32 }
    }

    /// The hit a rock meeting a player causes: the player exists, the rock
    /// belongs to a cluster that is at least as fast as the velocity
    /// threshold and is owned by somebody else.
    pub open spec fn spec_strike(&self, rock: usize, player: usize) -> Option<Hit> {
        if self.spec_player(player as int) is Some {
            match self.spec_cluster_of(Body::Rock(rock)) {
                Some(c) => {
                    let cluster = self.spec_cluster(c as int).unwrap();
                    if cluster.spec_speed() >= VELOCITYTHRESHOLD && cluster.owner.0 != player {
                        Some(
                            Hit {
                                player,
                                rock,
                                damage: spec_damage(cluster) as u32,
                                impulse: spec_knockback(
                                    self.spec_away(rock, player),
                                    spec_damage(cluster) as u32,
                                ),
                            },
                        )
                    } else {
                        None
                    }
                },
                None => None,
            }
        } else {
            None
        }
    }

    /// The hit an event causes: it starts a contact between a rock and a
    /// player, in either order.
    pub open spec fn spec_hit(&self, event: CollisionEvent) -> Option<Hit> {
        match event {
            CollisionEvent::Started(Body::Rock(r), Body::Player(p)) => self.spec_strike(r, p),
            CollisionEvent::Started(Body::Player(p), Body::Rock(r)) => self.spec_strike(r, p),
            _ => None,
        }
    }

    /// The hits a batch of events causes, in order.
    pub open spec fn spec_hits(&self, events: Seq<CollisionEvent>) -> Seq<Hit>
        decreases events.len(),
    {
        if events.len() == 0 {
            Seq::empty()
        } else {
            let before = self.spec_hits(events.drop_last());
            match self.spec_hit(events.last()) {
                Some(h) => before.push(h),
                None => before,
            }
        }
    }

    /// The hit a rock meeting a player causes.
    pub fn strike(&self, rock: usize, player: usize) -> (r: Option<Hit>)
        ensures
            r == self.spec_strike(rock, player),
    {
        let p: Player = match self.player(player) {
            Some(p) => p,
            None => {
                return None;
            },
        };
        match self.cluster_of(Body::Rock(rock)) {
            Some(c) => {
                let cluster = self.cluster(c).unwrap();
                if cluster.speed() >= VELOCITYTHRESHOLD && cluster.owner.0 != player {
                    let d: u32 = damage(&cluster);
                    let away = self.rock(rock).unwrap().position.minus(p.position);
                    Some(Hit { player, rock, damage: d, impulse: knockback(away, d) })
                } else {
                    None
                }
            },
            None => None,
        }
    }

    /// The hit an event causes.
    pub fn hit(&self, event: CollisionEvent) -> (r: Option<Hit>)
        ensures
            r == self.spec_hit(event),
    {
        match event {
            CollisionEvent::Started(Body::Rock(r), Body::Player(p)) => self.strike(r, p),
            CollisionEvent::Started(Body::Player(p), Body::Rock(r)) => self.strike(r, p),
            _ => None,
        }
    }

    /// Lets rocks hurt the players they ran into. Each hit takes its damage
    /// off the player's health. Returns the hits in order, each with the
    /// strength of the push the player receives away from the rock.
    pub fn damage_player(&mut self, events: &Vec<CollisionEvent>) -> (hits: Vec<Hit>)
        ensures
            hits@ == old(self).spec_hits(events@),
            final(self).players@ == old(self).players@.map(
                |k: int, p: Option<Player>| struck_player(p, k, hits@),
            ),
            final(self).sandbox == old(self).sandbox,
            final(self).rocks == old(self).rocks,
            final(self).clusters == old(self).clusters,
            final(self).grab_state == old(self).grab_state,
    {
        let mut hits: Vec<Hit> = Vec::new();
        let mut i: usize = 0;
        assert(events@.take(0) == Seq::<CollisionEvent>::empty());
        assert(self.players@ =~= old(self).players@.map(
            |k: int, p: Option<Player>| struck_player(p, k, hits@),
        ));
        while i < events.len()
            invariant
                i <= events.len(),
                hits@ == old(self).spec_hits(events@.take(i as int)),
                self.players@ == old(self).players@.map(
                    |k: int, p: Option<Player>| struck_player(p, k, hits@),
                ),
                self.sandbox == old(self).sandbox,
                self.rocks == old(self).rocks,
                self.clusters == old(self).clusters,
                self.grab_state == old(self).grab_state,
            decreases events.len() - i,
        {
            let event = events[i];
            let ghost before = hits@;
            proof {
                assert(events@.take(i + 1).drop_last() == events@.take(i as int));
                assert(events@.take(i + 1).last() == event);
                assert(self.spec_hit(event) == old(self).spec_hit(event)) by {
                    assert(forall|p: int|
                        self.spec_player(p) is Some <==> old(self).spec_player(p) is Some) by {
                        assert forall|p: int| self.spec_player(p) is Some <==> old(
                            self,
                        ).spec_player(p) is Some by {
                            if 0 <= p < self.players@.len() {
                                assert(self.players@[p] == struck_player(
                                    old(self).players@[p],
                                    p,
                                    hits@,
                                ));
                            }
                        }
                    }
                }
            }
            if let Some(h) = self.hit(event) {
                let p = self.players[h.player].unwrap();
                self.players.set(
                    h.player,
                    Some(
                        Player {
                            bundle: PlayerBundle {
                                health: PlayerHealth(wounded(p.bundle.health.0, h.damage)),
                                ..p.bundle
                            },
                            ..p
                        },
                    ),
                );
                hits.push(h);
                proof {
                    assert(hits@.drop_last() == before);
                    assert(self.players@ =~= old(self).players@.map(
                        |k: int, p: Option<Player>| struck_player(p, k, hits@),
                    ));
                }
            }
            i += 1;
        }
        proof {
            assert(events@.take(events.len() as int) == events@);
        }
        hits
    }

    /// Removes every player whose health is zero or less.
    pub fn despawn_player(&mut self)
        ensures
            final(self).players@ == old(self).players@.map(
                |k: int, p: Option<Player>|
                    match p {
                        Some(player) => if player.bundle.health.0 <= 0 {
                            None
                        } else {
                            p
                        },
                        None => None,
                    },
            ),
            final(self).sandbox == old(self).sandbox,
            final(self).rocks == old(self).rocks,
            final(self).clusters == old(self).clusters,
            final(self).grab_state == old(self).grab_state,
    {
        let count: usize = self.players.len();
        let mut k: usize = 0;
        while k < count
            invariant
                k <= count,
                count == old(self).players@.len(),
                self.players@.len() == count,
                forall|j: int|
                    0 <= j < k ==> #[trigger] self.players@[j] == match old(self).players@[j] {
                        Some(player) => if player.bundle.health.0 <= 0 {
                            None
                        } else {
                            old(self).players@[j]
                        },
                        None => None,
                    },
                forall|j: int| k <= j < count ==> self.players@[j] == old(self).players@[j],
                self.sandbox == old(self).sandbox,
                self.rocks == old(self).rocks,
                self.clusters == old(self).clusters,
                self.grab_state == old(self).grab_state,
            decreases count - k,
        {
            if let Some(player) = self.players[k] {
                if player.bundle.health.0 <= 0 {
                    self.players.set(k, None);
                }
            }
            k += 1;
        }
        assert(self.players@ =~= old(self).players@.map(
            |k: int, p: Option<Player>|
                match p {
                    Some(player) => if player.bundle.health.0 <= 0 {
                        None
                    } else {
                        p
                    },
                    None => None,
                },
        ));
    }

    /// Removes every rock that has fallen below the lost height.
    pub fn despawn_fallen_rocks(&mut self)
        requires
            old(self).wf(),
        ensures
            final(self).wf(),
            final(self).rocks@ == old(self).rocks@.map(
                |k: int, r: Option<Rock>|
                    match r {
                        Some(rock) => if rock.position.y < DESPAWNFALLENY {
                            None
                        } else {
                            r
                        },
                        None => None,
                    },
            ),
            final(self).sandbox == old(self).sandbox,
            final(self).players == old(self).players,
            final(self).clusters == old(self).clusters,
            final(self).grab_state == old(self).grab_state,
    {
        let count: usize = self.rocks.len();
        let mut k: usize = 0;
        while k < count
            invariant
                k <= count,
                count == old(self).rocks@.len(),
                self.rocks@.len() == count,
                forall|j: int|
                    0 <= j < k ==> #[trigger] self.rocks@[j] == match old(self).rocks@[j] {
                        Some(rock) => if rock.position.y < DESPAWNFALLENY {
                            None
                        } else {
                            old(self).rocks@[j]
                        },
                        None => None,
                    },
                forall|j: int| k <= j < count ==> self.rocks@[j] == old(self).rocks@[j],
                self.sandbox == old(self).sandbox,
                self.players == old(self).players,
                self.clusters == old(self).clusters,
                self.grab_state == old(self).grab_state,
            decreases count - k,
        {
            if let Some(rock) = self.rocks[k] {
                if rock.position.y < DESPAWNFALLENY {
                    self.rocks.set(k, None);
                }
            }
            k += 1;
        }
        assert(self.rocks@ =~= old(self).rocks@.map(
            |k: int, r: Option<Rock>|
                match r {
                    Some(rock) => if rock.position.y < DESPAWNFALLENY {
                        None
                    } else {
                        r
                    },
                    None => None,
                },
        ));
    }
}

/// A player loses health only to rocks of clusters that are at least as
/// fast as the velocity threshold and belong to somebody else, and then
/// loses exactly the square root of the cluster's speed times its mass,
/// rounded down.
pub proof fn law_only_fast_foreign_rocks_hurt(world: &World, event: CollisionEvent)
    ensures
        match world.spec_hit(event) {
            Some(hit) => {
                &&& world.spec_cluster_of(Body::Rock(hit.rock)) is Some
                &&& ({
                    let cluster = world.spec_cluster(
                        world.spec_cluster_of(Body::Rock(hit.rock)).unwrap() as int,
                    ).unwrap();
                    &&& cluster.spec_speed() >= VELOCITYTHRESHOLD
                    &&& cluster.owner.0 != hit.player
                    &&& hit.damage == floor_sqrt(cluster.spec_speed() * (cluster.mass as nat))
                    &&& hit.impulse == spec_knockback(
                        world.spec_away(hit.rock, hit.player),
                        hit.damage,
                    )
                })
            },
            None => true,
        },
{
    if let Some(hit) = world.spec_hit(event) {
        let cluster = world.spec_cluster(
            world.spec_cluster_of(Body::Rock(hit.rock)).unwrap() as int,
        ).unwrap();
        lemma_damage_fits(cluster);
    }
}

/// A batch of events none of which hits a player leaves that player's
/// health as it was.
pub proof fn law_unhit_players_keep_their_health(
    world: &World,
    events: Seq<CollisionEvent>,
    player: usize,
    health: i64,
)
    requires
        forall|k: int|
            0 <= k < events.len() ==> match #[trigger] world.spec_hit(events[k]) {
                Some(hit) => hit.player != player,
                None => true,
            },
    ensures
        health_after(health, world.spec_hits(events), player as int) == health,
    decreases events.len(),
{
    if events.len() > 0 {
        let earlier = events.drop_last();
        assert forall|k: int| 0 <= k < earlier.len() implies match #[trigger] world.spec_hit(
            earlier[k],
        ) {
            Some(hit) => hit.player != player,
            None => true,
        } by {
            assert(earlier[k] == events[k]);
        }
        law_unhit_players_keep_their_health(world, earlier, player, health);
        assert(events.last() == events[events.len() - 1]);
        let before = world.spec_hits(earlier);
        if let Some(h) = world.spec_hit(events.last()) {
            assert(before.push(h).drop_last() == before);
        }
    }
}

/// The damage of a cluster fits the numbers a hit records.
pub proof fn lemma_damage_fits(cluster: ParentObject)
    ensures
        spec_damage(cluster) <= u32::MAX,
        spec_damage(cluster) * KNOCKBACK <= u64::MAX,
{
    let m = cluster.spec_momentum();
    lemma_floor_sqrt(m);
    lemma_floor_sqrt(cluster.velocity.spec_length_squared());
    let s = cluster.spec_speed();
    let q = cluster.velocity.spec_length_squared();
    let x = cluster.velocity.x as int;
    let y = cluster.velocity.y as int;
    assert(0 <= x * x + y * y <= 0x8000_0000_0000_0000) by (nonlinear_arith)
        requires
            -0x8000_0000 <= x <= 0x7FFF_FFFF,
            -0x8000_0000 <= y <= 0x7FFF_FFFF,
    ;
    if s > 0xFFFF_FFFF {
        lemma_square_monotone(0x1_0000_0000, s);
        assert(0x1_0000_0000nat * 0x1_0000_0000nat == 0x1_0000_0000_0000_0000nat) by (nonlinear_arith);
    }
    assert(m <= 0xFFFF_FFFF * 0xFFFF_FFFF) by (nonlinear_arith)
        requires
            m == s * (cluster.mass as nat),
            s <= 0xFFFF_FFFF,
            cluster.mass <= 0xFFFF_FFFF,
    ;
    let d = spec_damage(cluster);
    if d > 0xFFFF_FFFF {
        lemma_square_monotone(0x1_0000_0000, d);
        assert(0x1_0000_0000nat * 0x1_0000_0000nat == 0x1_0000_0000_0000_0000nat) by (nonlinear_arith);
    }
    assert(d * KNOCKBACK <= 0xFFFF_FFFF * 5000) by (nonlinear_arith)
        requires
            d <= 0xFFFF_FFFF,
            KNOCKBACK == 5000,
    ;
}

} // verus!
