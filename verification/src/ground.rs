//! Rocks striking the ground: a rock of a freely flying cluster breaks
//! loose, and a fast one leaves a crater.

use vstd::prelude::*;
use crate::damage::{
    BREAKGROUNDVELOCITYTHRESHOLD, BREAKRADIUS, GROUNDVELOCITYTHRESHOLD,
    VELOCITYVSEXTERNALDIFFERENCE,
};
use crate::grab::{ParentObject, PutBackIntoSandbox, Rock};
use crate::sandbox::Sandbox;
use crate::world::{Body, CollisionEvent, World};

verus! {

/// Whether a cluster is flying freely and fast enough for the ground to
/// knock rocks off it: its speed reaches the ground threshold and differs
/// from its measured speed by the carried-cluster allowance or more.
pub open spec fn spec_flying(cluster: ParentObject) -> bool {
    let v = cluster.spec_speed() as int;
    let e = cluster.actual.linvel.spec_length() as int;
    v >= GROUNDVELOCITYTHRESHOLD && (v - e >= VELOCITYVSEXTERNALDIFFERENCE || e - v
        >= VELOCITYVSEXTERNALDIFFERENCE)
}

/// Whether a cluster is fast enough for its rocks to crater the ground.
pub open spec fn spec_cratering(cluster: ParentObject) -> bool {
    cluster.spec_speed() >= BREAKGROUNDVELOCITYTHRESHOLD
}

/// Whether a cluster is flying freely and fast enough for the ground to
/// knock rocks off it.
pub fn flying(cluster: &ParentObject) -> (b: bool)
    ensures
        b == spec_flying(*cluster),
{
    let v: u32 = cluster.speed();
    let e: u32 = cluster.actual.linvel.length();
    if v < GROUNDVELOCITYTHRESHOLD {
        return false;
    }
    let gap: u32 = if v >= e {
        v - e
    } else {
        e - v
    };
    gap >= VELOCITYVSEXTERNALDIFFERENCE
}

/// The rock that an event brings into contact with the ground.
pub open spec fn spec_grounded_rock(event: CollisionEvent) -> Option<usize> {
    match event {
        CollisionEvent::Started(Body::Rock(r), Body::Ground) => Some(r),
        CollisionEvent::Started(Body::Ground, Body::Rock(r)) => Some(r),
        _ => None,
    }
}

/// The rock that an event brings into contact with the ground.
pub fn grounded_rock(event: CollisionEvent) -> (r: Option<usize>)
    ensures
        r == spec_grounded_rock(event),
{
    match event {
        CollisionEvent::Started(Body::Rock(r), Body::Ground) => Some(r),
        CollisionEvent::Started(Body::Ground, Body::Rock(r)) => Some(r),
        _ => None,
    }
}

impl World {
    /// The rock an event knocks off its cluster: the event starts a contact
    /// between the ground and a rock of a freely flying cluster.
    pub open spec fn spec_ground_hit(&self, event: CollisionEvent) -> Option<usize> {
        match spec_grounded_rock(event) {
            Some(r) => self.spec_knocked_off(r),
            None => None,
        }
    }

    /// The rock, if it belongs to a freely flying cluster.
    pub open spec fn spec_knocked_off(&self, rock: usize) -> Option<usize> {
        match self.spec_cluster_of(Body::Rock(rock)) {
            Some(c) => if spec_flying(self.spec_cluster(c as int).unwrap()) {
                Some(rock)
            } else {
                None
            },
            None => None,
        }
    }

    /// The rocks a batch of events knocks off their clusters, each once, in
    /// the order of their first contact.
    pub open spec fn ground_impacts(&self, events: Seq<CollisionEvent>) -> Seq<usize>
        decreases events.len(),
    {
        if events.len() == 0 {
            Seq::empty()
        } else {
            let before = self.ground_impacts(events.drop_last());
            match self.spec_ground_hit(events.last()) {
                Some(r) => if before.contains(r) {
                    before
                } else {
                    before.push(r)
                },
                None => before,
            }
        }
    }

    /// A rock after the given rocks were knocked off: a knocked-off rock is
    /// free, keeps its cluster's velocity and is marked to return to the grid.
    pub open spec fn knocked_rock(&self, handle: int, hits: Seq<usize>) -> Option<Rock> {
        if 0 <= handle <= usize::MAX && hits.contains(handle as usize) {
            let rock = self.spec_rock(handle).unwrap();
            let cluster = self.spec_cluster(rock.parent.unwrap() as int).unwrap();
            Some(
                Rock {
                    position: rock.position,
                    velocity: cluster.velocity,
                    parent: None,
                    put_back: Some(PutBackIntoSandbox),
                },
            )
        } else {
            self.spec_rock(handle)
        }
    }

    /// Whether the impact of a rock craters cell `(x, y)`: the rock's cluster
    /// is fast enough, and the cell is the rock's or next to it.
    pub open spec fn spec_crater(&self, rock: usize, x: int, y: int) -> bool {
        let r = self.spec_rock(rock as int).unwrap();
        let cluster = self.spec_cluster(r.parent.unwrap() as int).unwrap();
        &&& spec_cratering(cluster)
        &&& Sandbox::in_square(
            Sandbox::spec_cell(r.position.x as int, self.sandbox.spec_width()),
            Sandbox::spec_cell(r.position.y as int, self.sandbox.spec_height()),
            BREAKRADIUS as int,
            x,
            y,
        )
    }

    /// Whether the impact of one of the given rocks craters cell `(x, y)`.
    pub open spec fn cratered(&self, hits: Seq<usize>, x: int, y: int) -> bool {
        exists|k: int| 0 <= k < hits.len() && self.spec_crater(#[trigger] hits[k], x, y)
    }

    /// The rock an event knocks off its cluster.
    pub fn ground_hit(&self, event: CollisionEvent) -> (r: Option<usize>)
        ensures
            r == self.spec_ground_hit(event),
    {
        let rock: usize = match grounded_rock(event) {
            Some(r) => r,
            None => {
                return None;
            },
        };
        match self.cluster_of(Body::Rock(rock)) {
            Some(c) => {
                let cluster = self.cluster(c).unwrap();
                if flying(&cluster) {
                    Some(rock)
                } else {
                    None
                }
            },
            None => None,
        }
    }

    /// Lets rocks that struck the ground break loose. A rock of a freely
    /// flying cluster leaves the cluster with the cluster's velocity, marked
    /// to return to the grid; if the cluster is fast enough, the rock's cell
    /// and the cells around it are emptied. Returns the rocks knocked off.
    pub fn break_from_ground(&mut self, events: &Vec<CollisionEvent>) -> (hits: Vec<usize>)
        requires
            old(self).wf(),
        ensures
            final(self).wf(),
            hits@ == old(self).ground_impacts(events@),
            final(self).rocks@.len() == old(self).rocks@.len(),
            forall|k: int|
                0 <= k < old(self).rocks@.len() ==> #[trigger] final(self).rocks@[k] == old(
                    self,
                ).knocked_rock(k, hits@),
            final(self).sandbox.spec_width() == old(self).sandbox.spec_width(),
            final(self).sandbox.spec_height() == old(self).sandbox.spec_height(),
            forall|x: int, y: int|
                final(self).sandbox.at(x, y) == if old(self).cratered(hits@, x, y) {
                    None
                } else {
                    old(self).sandbox.at(x, y)
                },
            final(self).clusters == old(self).clusters,
            final(self).players == old(self).players,
            final(self).grab_state == old(self).grab_state,
    {
        let mut hits: Vec<usize> = Vec::new();
        let mut i: usize = 0;
        assert(events@.take(0) == Seq::<CollisionEvent>::empty());
        while i < events.len()
            invariant
                i <= events.len(),
                self.wf(),
                hits@ == old(self).ground_impacts(events@.take(i as int)),
                self.rocks@.len() == old(self).rocks@.len(),
                forall|k: int|
                    0 <= k < old(self).rocks@.len() ==> #[trigger] self.rocks@[k] == old(
                        self,
                    ).knocked_rock(k, hits@),
                forall|k: int|
                    0 <= k < hits@.len() ==> old(self).spec_knocked_off(#[trigger] hits@[k])
                        == Some(hits@[k]),
                self.sandbox.spec_width() == old(self).sandbox.spec_width(),
                self.sandbox.spec_height() == old(self).sandbox.spec_height(),
                forall|x: int, y: int|
                    self.sandbox.at(x, y) == if old(self).cratered(hits@, x, y) {
                        None
                    } else {
                        old(self).sandbox.at(x, y)
                    },
                self.clusters == old(self).clusters,
                self.players == old(self).players,
                self.grab_state == old(self).grab_state,
            decreases events.len() - i,
        {
            let event = events[i];
            let ghost before = hits@;
            proof {
                assert(events@.take(i + 1).drop_last() == events@.take(i as int));
                assert(events@.take(i + 1).last() == event);
                if let Some(r) = spec_grounded_rock(event) {
                    if r < self.rocks@.len() {
                        assert(self.rocks@[r as int] == old(self).knocked_rock(r as int, before));
                    }
                }
            }
            if let Some(r) = self.ground_hit(event) {
                let rock = self.rocks[r].unwrap();
                let cluster = self.cluster(rock.parent.unwrap()).unwrap();
                self.rocks.set(
                    r,
                    Some(
                        Rock {
                            position: rock.position,
                            velocity: cluster.velocity,
                            parent: None,
                            put_back: Some(PutBackIntoSandbox),
                        },
                    ),
                );
                hits.push(r);
                let count: usize = self.rocks.len();
                if cluster.speed() >= BREAKGROUNDVELOCITYTHRESHOLD {
                    let (cx, cy) = self.sandbox.cell_of(rock.position);
                    self.sandbox.clear_square(cx, cy, BREAKRADIUS);
                }
                proof {
                    assert(hits@ == before.push(r));
                    assert forall|k: int| 0 <= k < old(self).rocks@.len() implies #[trigger] self.rocks@[k]
                        == old(self).knocked_rock(k, hits@) by {
                        assert(self.rocks@[k] == if k == r {
                            self.rocks@[r as int]
                        } else {
                            old(self).knocked_rock(k, before)
                        });
                        if k != r {
                            assert(k < count);
                            assert(hits@.contains(k as usize) == before.contains(k as usize)) by {
                                if hits@.contains(k as usize) {
                                    let j = choose|j: int|
                                        0 <= j < hits@.len() && hits@[j] == k as usize;
                                    assert(before[j] == k as usize);
                                }
                                if before.contains(k as usize) {
                                    let j = choose|j: int|
                                        0 <= j < before.len() && before[j] == k as usize;
                                    assert(hits@[j] == k as usize);
                                }
                            }
                        } else {
                            assert(hits@[before.len() as int] == r);
                        }
                    }
                    assert forall|x: int, y: int|
                        self.sandbox.at(x, y) == if old(self).cratered(hits@, x, y) {
                            None
                        } else {
                            old(self).sandbox.at(x, y)
                        } by {
                        if old(self).cratered(before, x, y) {
                            let j = choose|j: int|
                                0 <= j < before.len() && old(self).spec_crater(
                                    #[trigger] before[j],
                                    x,
                                    y,
                                );
                            assert(hits@[j] == before[j]);
                        }
                        if old(self).spec_crater(r, x, y) {
                            assert(hits@[before.len() as int] == r);
                        }
                        if old(self).cratered(hits@, x, y) {
                            let j = choose|j: int|
                                0 <= j < hits@.len() && old(self).spec_crater(
                                    #[trigger] hits@[j],
                                    x,
                                    y,
                                );
                            if j < before.len() {
                                assert(before[j] == hits@[j]);
                            }
                        }
                    }
                }
            } else {
                assert(hits@ == old(self).ground_impacts(events@.take(i + 1)));
            }
            i += 1;
        }
        proof {
            assert(events@.take(events.len() as int) == events@);
        }
        hits
    }
}

/// While every cluster's speed differs from its measured speed by less than
/// the carried-cluster allowance, contact with the ground knocks no rock off and craters no cell,
/// however fast the clusters are.
pub proof fn law_carried_clusters_ignore_ground(world: &World, events: Seq<CollisionEvent>)
    requires
        forall|c: int|
            (#[trigger] world.spec_cluster(c)) matches Some(cluster) ==> {
                let v = cluster.spec_speed() as int;
                let e = cluster.actual.linvel.spec_length() as int;
                v - e < VELOCITYVSEXTERNALDIFFERENCE && e - v < VELOCITYVSEXTERNALDIFFERENCE
            },
    ensures
        world.ground_impacts(events) == Seq::<usize>::empty(),
        forall|x: int, y: int| !world.cratered(world.ground_impacts(events), x, y),
        forall|k: int| world.knocked_rock(k, world.ground_impacts(events)) == world.spec_rock(k),
    decreases events.len(),
{
    if events.len() > 0 {
        law_carried_clusters_ignore_ground(world, events.drop_last());
        match events.last() {
            CollisionEvent::Started(Body::Rock(r), Body::Ground) => {
                if let Some(c) = world.spec_cluster_of(Body::Rock(r)) {
                    assert(world.spec_cluster(c as int) is Some);
                }
            },
            CollisionEvent::Started(Body::Ground, Body::Rock(r)) => {
                if let Some(c) = world.spec_cluster_of(Body::Rock(r)) {
                    assert(world.spec_cluster(c as int) is Some);
                }
            },
            _ => {},
        }
    }
}

/// A rock of a freely flying cluster that is fast enough to crater strikes
/// the ground, once or several times in a batch. It is knocked off once, and
/// exactly the cells of the square around its cell are cratered.
pub proof fn law_hard_impact_craters_the_square(
    world: &World,
    events: Seq<CollisionEvent>,
    rock: usize,
)
    requires
        events.len() > 0,
        forall|k: int|
            0 <= k < events.len() ==> {
                ||| #[trigger] events[k] == CollisionEvent::Started(Body::Rock(rock), Body::Ground)
                ||| events[k] == CollisionEvent::Started(Body::Ground, Body::Rock(rock))
            },
        world.spec_cluster_of(Body::Rock(rock)) matches Some(c) && spec_flying(
            world.spec_cluster(c as int).unwrap(),
        ) && spec_cratering(world.spec_cluster(c as int).unwrap()),
    ensures
        world.ground_impacts(events) == seq![rock],
        forall|x: int, y: int|
            world.cratered(world.ground_impacts(events), x, y) <==> Sandbox::in_square(
                Sandbox::spec_cell(
                    world.spec_rock(rock as int).unwrap().position.x as int,
                    world.sandbox.spec_width(),
                ),
                Sandbox::spec_cell(
                    world.spec_rock(rock as int).unwrap().position.y as int,
                    world.sandbox.spec_height(),
                ),
                BREAKRADIUS as int,
                x,
                y,
            ),
    decreases events.len(),
{
    let earlier = events.drop_last();
    let hits = world.ground_impacts(events);
    if earlier.len() == 0 {
        assert(world.ground_impacts(earlier) == Seq::<usize>::empty());
        assert(hits == Seq::<usize>::empty().push(rock));
    } else {
        assert forall|k: int| 0 <= k < earlier.len() implies {
            ||| #[trigger] earlier[k] == CollisionEvent::Started(Body::Rock(rock), Body::Ground)
            ||| earlier[k] == CollisionEvent::Started(Body::Ground, Body::Rock(rock))
        } by {
            assert(earlier[k] == events[k]);
        }
        law_hard_impact_craters_the_square(world, earlier, rock);
        assert(world.ground_impacts(earlier)[0] == rock);
    }
    assert(hits == seq![rock]);
    assert(hits[0] == rock);
}

} // verus!
