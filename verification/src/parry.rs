//! Parrying: a short window during which nearby clusters are turned around
//! and change owner.

use vstd::prelude::*;
use crate::components::PlayerBundle;
use crate::grab::{Owner, ParentObject};
use crate::vector::{
    clamp_i32, clamped, lemma_floor_sqrt, lemma_floor_sqrt_at_least, lemma_floor_sqrt_at_most,
    lemma_scaled_length, lemma_unit_length, scaled_component, spec_scaled_component, spec_slack,
    Vector,
};
use crate::world::{slot, Body, Player, World};

verus! {

/// A one-shot countdown, in microseconds.
#[derive(Clone, Copy, Debug, PartialEq, Eq, Structural)]
pub struct Timer {
    pub duration: u64,
    pub elapsed: u64,
    pub finished: bool,
    pub just_finished: bool,
}

/// A player's parry state. Radii are lengths; `duration` is in microseconds;
/// `regen_rate` is a length per second.
#[derive(Clone, Copy, Debug, PartialEq, Eq, Structural)]
pub struct Parry {
    pub max_radius: u32,
    pub min_radius: u32,
    pub current_radius: u32,
    pub duration: u64,
    pub time_left: Timer,
    pub regen_rate: u32,
    pub falloff: u32,
}

impl Timer {
    /// A fresh countdown of the given length.
    pub open spec fn spec_new(duration: u64) -> Timer {
        Timer { duration, elapsed: 0, finished: false, just_finished: false }
    }

    /// Time still to run.
    pub open spec fn spec_remaining(self) -> int {
        self.duration - self.elapsed
    }

    /// The countdown after `delta` more microseconds.
    pub open spec fn ticked(self, delta: u64) -> Timer {
        if self.finished {
            Timer { just_finished: false, ..self }
        } else {
            let run: int = if self.elapsed + delta > u64::MAX {
                u64::MAX as int
            } else {
                self.elapsed + delta
            };
            if run >= self.duration {
                Timer { elapsed: self.duration, finished: true, just_finished: true, ..self }
            } else {
                Timer { elapsed: run as u64, finished: false, just_finished: false, ..self }
            }
        }
    }

    /// A fresh countdown of the given length.
    pub fn new(duration: u64) -> (t: Timer)
        ensures
            t == Timer::spec_new(duration),
    {
        Timer { duration, elapsed: 0, finished: false, just_finished: false }
    }
}

impl Parry {
    /// The parry state a player starts with: a radius above the largest, so
    /// that the first recovery brings it down to the largest, and a countdown
    /// of no length that has not yet been ticked.
    pub open spec fn spec_default() -> Parry {
        Parry {
            max_radius: 70_000,
            min_radius: 10_000,
            current_radius: 140_000,
            duration: 100_000,
            time_left: Timer::spec_new(0),
            regen_rate: 10_000,
            falloff: 70_000,
        }
    }
}

impl Default for Parry {
    fn default() -> (r: Self)
        ensures
            r == Parry::spec_default(),
    {
        Parry {
            max_radius: 70_000,
            min_radius: 10_000,
            current_radius: 140_000,
            duration: 100_000,
            time_left: Timer::new(0),
            regen_rate: 10_000,
            falloff: 70_000,
        }
    }
}

/// Microseconds in a second.
pub const MICROS: u64 = 1_000_000;

impl Timer {
    /// Lets `delta` microseconds pass. A countdown that reaches its length
    /// stops there, finished, and has just finished until the next tick.
    pub fn tick(&mut self, delta: u64)
        ensures
            *final(self) == old(self).ticked(delta),
    {
        if self.finished {
            self.just_finished = false;
            return ;
        }
        let run: u64 = if delta > u64::MAX - self.elapsed {
            u64::MAX
        } else {
            self.elapsed + delta
        };
        if run >= self.duration {
            self.elapsed = self.duration;
            self.finished = true;
            self.just_finished = true;
        } else {
            self.elapsed = run;
            self.finished = false;
            self.just_finished = false;
        }
    }

    /// Whether time is still to run.
    pub fn running(&self) -> (b: bool)
        ensures
            b == (self.spec_remaining() > 0),
    {
        self.duration > self.elapsed
    }
}

impl Parry {
    /// Whether the parry window is open: its countdown has not finished.
    pub open spec fn spec_active(self) -> bool {
        !self.time_left.finished
    }

    /// The state after the radius has recovered for `delta` microseconds: it
    /// grows at the regeneration rate, but not beyond the largest radius.
    pub open spec fn regenerated(self, delta: u64) -> Parry {
        let grown = self.current_radius + (self.regen_rate * delta) / (MICROS as int);
        Parry {
            current_radius: if grown < self.max_radius {
                grown as u32
            } else {
                self.max_radius
            },
            ..self
        }
    }

    /// The state after a press of the parry button: a window that is not
    /// running is opened for the full duration.
    pub open spec fn initiated(self) -> Parry {
        if self.time_left.spec_remaining() > 0 {
            self
        } else {
            Parry { time_left: Timer::spec_new(self.duration), ..self }
        }
    }

    /// The state after an open window has run `delta` microseconds more: when
    /// it closes, the radius drops by the falloff, but not below the
    /// smallest radius.
    pub open spec fn ran(self, delta: u64) -> Parry {
        let timer = self.time_left.ticked(delta);
        if timer.just_finished {
            let shrunk = self.current_radius - self.falloff;
            Parry {
                time_left: timer,
                current_radius: if shrunk > self.min_radius {
                    shrunk as u32
                } else {
                    self.min_radius
                },
                ..self
            }
        } else {
            Parry { time_left: timer, ..self }
        }
    }

    /// Whether the parry window is open.
    pub fn active(&self) -> (b: bool)
        ensures
            b == self.spec_active(),
    {
        !self.time_left.finished
    }

    /// Lets the radius recover for `delta` microseconds.
    pub fn regen(&mut self, delta: u64)
        ensures
            *final(self) == old(self).regenerated(delta),
    {
        let rate: u128 = self.regen_rate as u128;
        let time: u128 = delta as u128;
        assert(rate * time <= 0xFFFF_FFFF * 0xFFFF_FFFF_FFFF_FFFF) by (nonlinear_arith)
            requires
                0 <= rate <= 0xFFFF_FFFF,
                0 <= time <= 0xFFFF_FFFF_FFFF_FFFF,
        ;
        let grown: u128 = self.current_radius as u128 + (rate * time) / 1_000_000;
        if grown < self.max_radius as u128 {
            self.current_radius = grown as u32;
        } else {
            self.current_radius = self.max_radius;
        }
    }

    /// Answers a press of the parry button.
    pub fn initiate(&mut self)
        ensures
            *final(self) == old(self).initiated(),
    {
        if !self.time_left.running() {
            self.time_left = Timer::new(self.duration);
        }
    }

    /// Lets an open window run `delta` microseconds more.
    pub fn run(&mut self, delta: u64)
        ensures
            *final(self) == old(self).ran(delta),
    {
        self.time_left.tick(delta);
        if self.time_left.just_finished {
            if self.current_radius > self.falloff && self.current_radius - self.falloff
                > self.min_radius {
                self.current_radius = self.current_radius - self.falloff;
            } else {
                self.current_radius = self.min_radius;
            }
        }
    }
}

/// A velocity turned away from a player. `towards` points from the moving
/// body to the player. The new heading is the direction of the body's own
/// heading minus the heading towards the player; a body that heads exactly
/// for the player is sent straight back. The speed stays what it was, to
/// within the slack of rounding (see [`law_parry_keeps_the_speed`]).
pub open spec fn spec_redirected(velocity: Vector, towards: Vector) -> Vector {
    let speed = velocity.spec_length() as int;
    let own = velocity.spec_normalize_or_zero();
    let other = towards.spec_normalize_or_zero();
    if own == other {
        Vector { x: clamped(-velocity.x) as i32, y: clamped(-velocity.y) as i32 }
    } else {
        let heading = (Vector {
            x: clamped(own.x - other.x) as i32,
            y: clamped(own.y - other.y) as i32,
        }).spec_normalize_or_zero();
        Vector {
            x: clamped(spec_scaled_component(heading.x as int, speed)) as i32,
            y: clamped(spec_scaled_component(heading.y as int, speed)) as i32,
        }
    }
}

/// A velocity turned away from a player.
pub fn redirected(velocity: Vector, towards: Vector) -> (v: Vector)
    ensures
        v == spec_redirected(velocity, towards),
{
    let speed: u64 = velocity.length() as u64;
    let own = velocity.normalize_or_zero();
    let other = towards.normalize_or_zero();
    if own.x == other.x && own.y == other.y {
        Vector { x: clamp_i32(-(velocity.x as i128)), y: clamp_i32(-(velocity.y as i128)) }
    } else {
        let heading = own.minus(other).normalize_or_zero();
        Vector {
            x: clamp_i32(scaled_component(heading.x, speed)),
            y: clamp_i32(scaled_component(heading.y, speed)),
        }
    }
}

/// No component of a quantity is longer than the quantity.
pub proof fn lemma_component_within_length(v: Vector)
    ensures
        -v.spec_length() <= v.x <= v.spec_length(),
        -v.spec_length() <= v.y <= v.spec_length(),
{
    let x = v.x as int;
    let y = v.y as int;
    let q = v.spec_length_squared();
    let s = v.spec_length() as int;
    lemma_floor_sqrt(q);
    assert(x * x >= 0 && y * y >= 0) by (nonlinear_arith);
    assert(-s <= x <= s) by (nonlinear_arith)
        requires
            x * x < (s + 1) * (s + 1),
            s >= 0,
    ;
    assert(-s <= y <= s) by (nonlinear_arith)
        requires
            y * y < (s + 1) * (s + 1),
            s >= 0,
    ;
}

/// A parry keeps the speed: the speed of a velocity turned away from a
/// player is not above the speed before, and below it by no more than the
/// slack of rounding, two millionths of the speed and four steps. This
/// holds of every velocity whose speed fits a component.
pub proof fn law_parry_keeps_the_speed(velocity: Vector, towards: Vector)
    requires
        velocity.spec_length() <= i32::MAX,
    ensures
        spec_redirected(velocity, towards).spec_length() <= velocity.spec_length(),
        velocity.spec_length() <= spec_redirected(velocity, towards).spec_length() + spec_slack(
            velocity.spec_length() as int,
        ),
{
    let s = velocity.spec_length() as int;
    let own = velocity.spec_normalize_or_zero();
    let other = towards.spec_normalize_or_zero();
    let after = spec_redirected(velocity, towards);
    lemma_component_within_length(velocity);
    if own == other {
        let x = velocity.x as int;
        let y = velocity.y as int;
        assert((-x) * (-x) == x * x && (-y) * (-y) == y * y) by (nonlinear_arith);
        assert(after.spec_length_squared() == velocity.spec_length_squared());
    } else {
        if velocity.spec_length_squared() > 0 {
            lemma_unit_length(velocity);
        }
        if towards.spec_length_squared() > 0 {
            lemma_unit_length(towards);
        }
        let gap = Vector {
            x: clamped(own.x - other.x) as i32,
            y: clamped(own.y - other.y) as i32,
        };
        let gx = gap.x as int;
        let gy = gap.y as int;
        assert(gx != 0 || gy != 0);
        assert(gx * gx + gy * gy > 0) by (nonlinear_arith)
            requires
                gx != 0 || gy != 0,
        ;
        lemma_unit_length(gap);
        let heading = gap.spec_normalize_or_zero();
        lemma_scaled_length(heading.x as int, heading.y as int, s);
        let a = spec_scaled_component(heading.x as int, s);
        let b = spec_scaled_component(heading.y as int, s);
        assert(after.x == a && after.y == b);
        assert(s * s >= 0 && a * a >= 0 && b * b >= 0) by (nonlinear_arith);
        lemma_floor_sqrt_at_most((a * a + b * b) as nat, s as nat);
        if s >= spec_slack(s) {
            let low = s - spec_slack(s);
            assert(low * low >= 0) by (nonlinear_arith);
            lemma_floor_sqrt_at_least((a * a + b * b) as nat, low as nat);
        }
    }
}

/// A cluster after a player standing at `position` has parried it: it
/// answers to the player, nobody holds it, and it is turned away from the
/// player.
pub open spec fn parried_cluster(
    cluster: ParentObject,
    player: usize,
    position: Vector,
) -> ParentObject {
    ParentObject {
        owner: Owner(player),
        held: None,
        velocity: spec_redirected(
            cluster.velocity,
            Vector {
                x: clamped(position.x - cluster.position.x) as i32,
                y: clamped(position.y - cluster.position.y) as i32,
            },
        ),
        ..cluster
    }
}

/// The clusters after a player has parried those named by `turned`, one
/// after the other. A cluster named several times is turned several times.
pub open spec fn turned_around(
    clusters: Seq<Option<ParentObject>>,
    turned: Seq<usize>,
    player: usize,
    position: Vector,
) -> Seq<Option<ParentObject>>
    decreases turned.len(),
{
    if turned.len() == 0 {
        clusters
    } else {
        let before = turned_around(clusters, turned.drop_last(), player, position);
        match slot(before, turned.last() as int) {
            Some(cluster) => before.update(
                turned.last() as int,
                Some(parried_cluster(cluster, player, position)),
            ),
            None => before,
        }
    }
}

/// Parrying neither makes nor removes a cluster.
pub proof fn lemma_turned_around_keeps_clusters(
    clusters: Seq<Option<ParentObject>>,
    turned: Seq<usize>,
    player: usize,
    position: Vector,
)
    ensures
        turned_around(clusters, turned, player, position).len() == clusters.len(),
        forall|c: int|
            0 <= c < clusters.len() ==> (#[trigger] turned_around(
                clusters,
                turned,
                player,
                position,
            )[c] is Some <==> clusters[c] is Some),
    decreases turned.len(),
{
    if turned.len() > 0 {
        lemma_turned_around_keeps_clusters(clusters, turned.drop_last(), player, position);
    }
}

impl World {
    /// The radius within which the player's parry takes effect, if the
    /// player exists and the parry window is open.
    pub open spec fn spec_parry_radius(&self, player: usize) -> Option<u32> {
        match self.spec_player(player as int) {
            Some(p) => if p.bundle.parry.spec_active() {
                Some(p.bundle.parry.current_radius)
            } else {
                None
            },
            None => None,
        }
    }

    /// The clusters of the touched bodies, in order; a cluster appears once
    /// for each of its rocks that was touched.
    pub open spec fn spec_touched_clusters(&self, touched: Seq<Body>) -> Seq<usize>
        decreases touched.len(),
    {
        if touched.len() == 0 {
            Seq::empty()
        } else {
            let before = self.spec_touched_clusters(touched.drop_last());
            match self.spec_cluster_of(touched.last()) {
                Some(c) => before.push(c),
                None => before,
            }
        }
    }

    /// What a step of parrying leaves behind, `self` being the world before
    /// and `after` the world after. Without an open window nothing changes.
    /// Otherwise every cluster with a touched rock answers to the player, is
    /// not held and is turned away from the player, once for each touched
    /// rock, and the player's window has run `delta` microseconds.
    pub open spec fn parried(
        &self,
        after: &World,
        player: usize,
        touched: Seq<Body>,
        delta: u64,
        turned: Seq<usize>,
    ) -> bool {
        &&& after.sandbox == self.sandbox
        &&& after.rocks@ == self.rocks@
        &&& after.grab_state == self.grab_state
        &&& match self.spec_parry_radius(player) {
            Some(_) => {
                let p = self.spec_player(player as int).unwrap();
                &&& turned == self.spec_touched_clusters(touched)
                &&& after.clusters@ == turned_around(self.clusters@, turned, player, p.position)
                &&& after.players@ == self.players@.update(
                    player as int,
                    Some(
                        Player {
                            bundle: PlayerBundle { parry: p.bundle.parry.ran(delta), ..p.bundle },
                            ..p
                        },
                    ),
                )
            },
            None => {
                &&& turned.len() == 0
                &&& after.clusters@ == self.clusters@
                &&& after.players@ == self.players@
            },
        }
    }

    /// The radius within which the player's parry takes effect right now.
    pub fn parry_radius(&self, player: usize) -> (r: Option<u32>)
        ensures
            r == self.spec_parry_radius(player),
    {
        match self.player(player) {
            Some(p) => if p.bundle.parry.active() {
                Some(p.bundle.parry.current_radius)
            } else {
                None
            },
            None => None,
        }
    }

    /// One step of a player's parry. `touched` are the bodies found within
    /// the parry radius of the player. While the player's window is open,
    /// every cluster with a touched rock is taken over by the player,
    /// released from any hold and turned away from the player; then the
    /// window runs `delta` microseconds. Returns the clusters turned, one
    /// entry for each touched rock.
    pub fn parry(&mut self, player: usize, touched: &Vec<Body>, delta: u64) -> (turned: Vec<usize>)
        requires
            old(self).wf(),
        ensures
            final(self).wf(),
            old(self).parried(final(self), player, touched@, delta, turned@),
    {
        let mut turned: Vec<usize> = Vec::new();
        if self.parry_radius(player).is_none() {
            return turned;
        }
        let p: Player = self.player(player).unwrap();
        let mut i: usize = 0;
        assert(touched@.take(0) == Seq::<Body>::empty());
        while i < touched.len()
            invariant
                i <= touched.len(),
                turned@ == old(self).spec_touched_clusters(touched@.take(i as int)),
                self.clusters@ == turned_around(old(self).clusters@, turned@, player, p.position),
                self.sandbox == old(self).sandbox,
                self.rocks == old(self).rocks,
                self.players == old(self).players,
                self.grab_state == old(self).grab_state,
            decreases touched.len() - i,
        {
            let body = touched[i];
            proof {
                assert(touched@.take(i + 1).drop_last() == touched@.take(i as int));
                assert(touched@.take(i + 1).last() == body);
                lemma_turned_around_keeps_clusters(
                    old(self).clusters@,
                    turned@,
                    player,
                    p.position,
                );
            }
            if let Some(c) = self.cluster_of(body) {
                let cluster = self.clusters[c].unwrap();
                let ghost before = turned@;
                self.clusters.set(
                    c,
                    Some(
                        ParentObject {
                            owner: Owner(player),
                            held: None,
                            velocity: redirected(
                                cluster.velocity,
                                p.position.minus(cluster.position),
                            ),
                            ..cluster
                        },
                    ),
                );
                turned.push(c);
                proof {
                    assert(turned@.drop_last() == before);
                }
            }
            i += 1;
        }
        proof {
            assert(touched@.take(touched.len() as int) == touched@);
            lemma_turned_around_keeps_clusters(old(self).clusters@, turned@, player, p.position);
        }
        let mut state = p.bundle.parry;
        state.run(delta);
        self.players.set(
            player,
            Some(Player { bundle: PlayerBundle { parry: state, ..p.bundle }, ..p }),
        );
        turned
    }
}

/// A player after the parry radius has recovered for `delta` microseconds.
pub open spec fn regenerated_player(player: Option<Player>, delta: u64) -> Option<Player> {
    match player {
        Some(p) => Some(
            Player {
                bundle: PlayerBundle { parry: p.bundle.parry.regenerated(delta), ..p.bundle },
                ..p
            },
        ),
        None => None,
    }
}

impl World {
    /// Answers a player's press of the parry button: a window that is not
    /// running is opened for the full duration.
    pub fn initate_parry(&mut self, player: usize)
        ensures
            final(self).players@ == match old(self).spec_player(player as int) {
                Some(p) => old(self).players@.update(
                    player as int,
                    Some(
                        Player {
                            bundle: PlayerBundle { parry: p.bundle.parry.initiated(), ..p.bundle },
                            ..p
                        },
                    ),
                ),
                None => old(self).players@,
            },
            final(self).sandbox == old(self).sandbox,
            final(self).rocks == old(self).rocks,
            final(self).clusters == old(self).clusters,
            final(self).grab_state == old(self).grab_state,
    {
        if let Some(p) = self.player(player) {
            let mut state = p.bundle.parry;
            state.initiate();
            self.players.set(
                player,
                Some(Player { bundle: PlayerBundle { parry: state, ..p.bundle }, ..p }),
            );
        }
    }

    /// Lets every player's parry radius recover for `delta` microseconds.
    pub fn regen_parry(&mut self, delta: u64)
        ensures
            final(self).players@ == old(self).players@.map(
                |k: int, p: Option<Player>| regenerated_player(p, delta),
            ),
            final(self).sandbox == old(self).sandbox,
            final(self).rocks == old(self).rocks,
            final(self).clusters == old(self).clusters,
            final(self).grab_state == old(self).grab_state,
    {
        let count: usize = self.players.len();
        let mut k: usize = 0;
        while k < count
            invariant
                k <= count,
                count == old(self).players@.len(),
                self.players@.len() == count,
                forall|j: int|
                    0 <= j < k ==> #[trigger] self.players@[j] == regenerated_player(
                        old(self).players@[j],
                        delta,
                    ),
                forall|j: int| k <= j < count ==> self.players@[j] == old(self).players@[j],
                self.sandbox == old(self).sandbox,
                self.rocks == old(self).rocks,
                self.clusters == old(self).clusters,
                self.grab_state == old(self).grab_state,
            decreases count - k,
        {
            if let Some(p) = self.players[k] {
                let mut state = p.bundle.parry;
                state.regen(delta);
                self.players.set(
                    k,
                    Some(Player { bundle: PlayerBundle { parry: state, ..p.bundle }, ..p }),
                );
            }
            k += 1;
        }
        assert(self.players@ =~= old(self).players@.map(
            |k: int, p: Option<Player>| regenerated_player(p, delta),
        ));
    }
}

/// Every cluster a player has parried answers to the player and is not
/// held, however often it was turned.
pub proof fn lemma_turned_around_takes_over(
    clusters: Seq<Option<ParentObject>>,
    turned: Seq<usize>,
    player: usize,
    position: Vector,
    k: int,
)
    requires
        0 <= k < turned.len(),
        slot(clusters, turned[k] as int) is Some,
    ensures
        ({
            let after = slot(turned_around(clusters, turned, player, position), turned[k] as int);
            &&& after is Some
            &&& after.unwrap().owner == Owner(player)
            &&& after.unwrap().held is None
        }),
    decreases turned.len(),
{
    lemma_turned_around_keeps_clusters(clusters, turned.drop_last(), player, position);
    if k < turned.len() - 1 {
        lemma_turned_around_takes_over(clusters, turned.drop_last(), player, position, k);
    }
}

/// A touched body that belongs to a cluster puts that cluster among the
/// touched clusters.
pub proof fn lemma_touched_cluster(world: &World, touched: Seq<Body>, k: int) -> (j: int)
    requires
        0 <= k < touched.len(),
        world.spec_cluster_of(touched[k]) is Some,
    ensures
        0 <= j < world.spec_touched_clusters(touched).len(),
        world.spec_touched_clusters(touched)[j] == world.spec_cluster_of(touched[k]).unwrap(),
    decreases touched.len(),
{
    let before = world.spec_touched_clusters(touched.drop_last());
    let all = world.spec_touched_clusters(touched);
    if k == touched.len() - 1 {
        all.len() - 1
    } else {
        let j = lemma_touched_cluster(world, touched.drop_last(), k);
        assert(all[j] == before[j]);
        j
    }
}

/// A player parries while the window is open, and a rock of some cluster is
/// within reach. Whoever owned the cluster before, afterwards it answers to
/// the parrying player, and it is not held.
pub proof fn law_parry_takes_the_cluster(
    before: &World,
    after: &World,
    player: usize,
    touched: Seq<Body>,
    delta: u64,
    turned: Seq<usize>,
    k: int,
)
    requires
        before.parried(after, player, touched, delta, turned),
        before.spec_parry_radius(player) is Some,
        0 <= k < touched.len(),
        before.spec_cluster_of(touched[k]) is Some,
    ensures
        ({
            let c = before.spec_cluster_of(touched[k]).unwrap();
            &&& after.spec_cluster(c as int) is Some
            &&& after.spec_cluster(c as int).unwrap().owner == Owner(player)
            &&& after.spec_cluster(c as int).unwrap().held is None
        }),
{
    let j = lemma_touched_cluster(before, touched, k);
    let p = before.spec_player(player as int).unwrap();
    lemma_turned_around_takes_over(before.clusters@, turned, player, p.position, j);
}

} // verus!
