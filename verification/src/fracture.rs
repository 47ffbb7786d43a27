//! Clusters shattering each other: when two clusters collide, the one with
//! far less momentum breaks into loose rocks, or both do.

use vstd::prelude::*;
use crate::damage::{OVERPOWERDIFFERENCE, VELOCITYTHRESHOLD};
use crate::grab::{ParentObject, PutBackIntoSandbox, Rock};
use crate::vector::Vector;
use crate::visited::{visited_contains, visited_insert, visited_members, visited_new, Visited};
use crate::world::{CollisionEvent, World};

verus! {

/// How a meeting of two clusters ends.
#[derive(Clone, Copy, Debug, PartialEq, Eq, Structural)]
pub enum Clash {
    /// Both too slow to matter.
    Harmless,
    /// The first overpowers the second.
    SecondBreaks,
    /// The second overpowers the first.
    FirstBreaks,
    /// Neither overpowers the other.
    BothBreak,
}

/// One cluster shattering: which one, and the velocity its rocks fly off with.
#[derive(Clone, Copy, Debug, PartialEq, Eq)]
pub struct Break {
    pub cluster: usize,
    pub velocity: Vector,
}

/// How a meeting of two clusters ends.
pub open spec fn spec_clash(first: ParentObject, second: ParentObject) -> Clash {
    if first.spec_speed() < VELOCITYTHRESHOLD && second.spec_speed() < VELOCITYTHRESHOLD {
        Clash::Harmless
    } else if first.spec_momentum() - second.spec_momentum() >= OVERPOWERDIFFERENCE {
        Clash::SecondBreaks
    } else if second.spec_momentum() - first.spec_momentum() >= OVERPOWERDIFFERENCE {
        Clash::FirstBreaks
    } else {
        Clash::BothBreak
    }
}

/// How a meeting of two clusters ends.
pub fn clash(first: &ParentObject, second: &ParentObject) -> (c: Clash)
    ensures
        c == spec_clash(*first, *second),
{
    let speed1: u32 = first.speed();
    let speed2: u32 = second.speed();
    if speed1 < VELOCITYTHRESHOLD && speed2 < VELOCITYTHRESHOLD {
        return Clash::Harmless;
    }
    let momentum1: u64 = first.momentum();
    let momentum2: u64 = second.momentum();
    if momentum1 >= momentum2 && momentum1 - momentum2 >= OVERPOWERDIFFERENCE {
        Clash::SecondBreaks
    } else if momentum2 >= momentum1 && momentum2 - momentum1 >= OVERPOWERDIFFERENCE {
        Clash::FirstBreaks
    } else {
        Clash::BothBreak
    }
}

/// The clusters a plan shatters.
pub open spec fn broken(plan: Seq<Break>) -> Set<usize> {
    Set::new(|c: usize| exists|k: int| 0 <= k < plan.len() && (#[trigger] plan[k]).cluster == c)
}

/// The velocity a plan gives the rocks of a cluster: that of the first break
/// naming the cluster; nothing if the plan spares it.
pub open spec fn fate(plan: Seq<Break>, cluster: usize) -> Option<Vector>
    decreases plan.len(),
{
    if plan.len() == 0 {
        None
    } else {
        match fate(plan.drop_last(), cluster) {
            Some(v) => Some(v),
            None => if plan.last().cluster == cluster {
                Some(plan.last().velocity)
            } else {
                None
            },
        }
    }
}

/// A break of `cluster`, unless it is among those already broken.
pub open spec fn break_once(done: Set<usize>, cluster: usize, velocity: Vector) -> Seq<Break> {
    if done.contains(cluster) {
        Seq::empty()
    } else {
        seq![Break { cluster, velocity }]
    }
}

impl World {
    /// The two distinct clusters whose rocks an event brings together.
    pub open spec fn spec_meeting(&self, event: CollisionEvent) -> Option<(usize, usize)> {
        match event {
            CollisionEvent::Started(a, b) => match (self.spec_cluster_of(a), self.spec_cluster_of(b)) {
                (Some(first), Some(second)) => if first != second {
                    Some((first, second))
                } else {
                    None
                },
                _ => None,
            },
            CollisionEvent::Stopped(_, _) => None,
        }
    }

    /// The breaks one event adds, given the clusters already broken this
    /// step. An overpowered cluster flies off with the winner's velocity;
    /// clusters that break each other keep their own.
    pub open spec fn event_breaks(&self, done: Set<usize>, event: CollisionEvent) -> Seq<Break> {
        match self.spec_meeting(event) {
            Some((first, second)) => {
                let a = self.spec_cluster(first as int).unwrap();
                let b = self.spec_cluster(second as int).unwrap();
                match spec_clash(a, b) {
                    Clash::Harmless => Seq::empty(),
                    Clash::SecondBreaks => break_once(done, second, a.velocity),
                    Clash::FirstBreaks => break_once(done, first, b.velocity),
                    Clash::BothBreak => break_once(done, second, b.velocity) + break_once(
                        done,
                        first,
                        a.velocity,
                    ),
                }
            },
            None => Seq::empty(),
        }
    }

    /// The breaks a batch of events causes, in order. Every event is judged
    /// against the world as it stood before the batch.
    pub open spec fn fracture_plan(&self, events: Seq<CollisionEvent>) -> Seq<Break>
        decreases events.len(),
    {
        if events.len() == 0 {
            Seq::empty()
        } else {
            let before = self.fracture_plan(events.drop_last());
            before + self.event_breaks(broken(before), events.last())
        }
    }
}

/// A rock after a plan is carried out: a rock of a broken cluster is free,
/// flies with the plan's velocity and is marked to return to the grid.
pub open spec fn shattered_rock(rock: Option<Rock>, plan: Seq<Break>) -> Option<Rock> {
    match rock {
        Some(r) => match r.parent {
            Some(c) => match fate(plan, c) {
                Some(v) => Some(
                    Rock {
                        position: r.position,
                        velocity: v,
                        parent: None,
                        put_back: Some(PutBackIntoSandbox),
                    },
                ),
                None => rock,
            },
            None => rock,
        },
        None => None,
    }
}

/// A cluster after a plan is carried out: gone if the plan breaks it.
pub open spec fn shattered_cluster(
    cluster: Option<ParentObject>,
    handle: int,
    plan: Seq<Break>,
) -> Option<ParentObject> {
    if 0 <= handle <= usize::MAX && fate(plan, handle as usize) is Some {
        None
    } else {
        cluster
    }
}

/// A plan breaks exactly the clusters it gives a fate.
pub proof fn lemma_fate_broken(plan: Seq<Break>, cluster: usize)
    ensures
        fate(plan, cluster) is Some <==> broken(plan).contains(cluster),
    decreases plan.len(),
{
    if plan.len() > 0 {
        lemma_fate_broken(plan.drop_last(), cluster);
        if broken(plan).contains(cluster) {
            let k = choose|k: int| 0 <= k < plan.len() && (#[trigger] plan[k]).cluster == cluster;
            if k < plan.len() - 1 {
                assert(plan.drop_last()[k].cluster == cluster);
            }
        }
        if broken(plan.drop_last()).contains(cluster) {
            let k = choose|k: int|
                0 <= k < plan.drop_last().len() && (#[trigger] plan.drop_last()[k]).cluster
                    == cluster;
            assert(plan[k].cluster == cluster);
        }
        if plan.last().cluster == cluster {
            assert(plan[plan.len() - 1].cluster == cluster);
        }
    }
}

/// Adding breaks to a plan adds their clusters to the broken ones.
pub proof fn lemma_broken_push(plan: Seq<Break>, b: Break)
    ensures
        broken(plan.push(b)) == broken(plan).insert(b.cluster),
{
    let more = plan.push(b);
    assert forall|c: usize| broken(more).contains(c) <==> broken(plan).insert(b.cluster).contains(
        c,
    ) by {
        if broken(more).contains(c) {
            let k = choose|k: int| 0 <= k < more.len() && (#[trigger] more[k]).cluster == c;
            if k < plan.len() {
                assert(plan[k].cluster == c);
            }
        }
        if broken(plan).contains(c) {
            let k = choose|k: int| 0 <= k < plan.len() && (#[trigger] plan[k]).cluster == c;
            assert(more[k].cluster == c);
        }
        if c == b.cluster {
            assert(more[plan.len() as int].cluster == c);
        }
    }
    assert(broken(more) =~= broken(plan).insert(b.cluster));
}

/// The velocity a plan gives the rocks of a cluster, if it breaks it.
pub fn find_fate(plan: &Vec<Break>, cluster: usize) -> (r: Option<Vector>)
    ensures
        r == fate(plan@, cluster),
{
    let mut i: usize = 0;
    while i < plan.len()
        invariant
            i <= plan.len(),
            fate(plan@.take(i as int), cluster) is None,
        decreases plan.len() - i,
    {
        let b = plan[i];
        proof {
            assert(plan@.take(i + 1).drop_last() == plan@.take(i as int));
            assert(plan@.take(i + 1).last() == plan@[i as int]);
        }
        if b.cluster == cluster {
            proof {
                lemma_fate_prefix(plan@, i + 1, cluster);
            }
            return Some(b.velocity);
        }
        i += 1;
    }
    proof {
        assert(plan@.take(plan.len() as int) == plan@);
    }
    None
}

/// What a prefix of a plan decides for a cluster, the whole plan decides too.
pub proof fn lemma_fate_prefix(plan: Seq<Break>, n: int, cluster: usize)
    requires
        0 <= n <= plan.len(),
        fate(plan.take(n), cluster) is Some,
    ensures
        fate(plan, cluster) == fate(plan.take(n), cluster),
    decreases plan.len() - n,
{
    if n < plan.len() {
        assert(plan.take(n + 1).drop_last() == plan.take(n));
        lemma_fate_prefix(plan, n + 1, cluster);
    } else {
        assert(plan.take(n) == plan);
    }
}

/// Adds a break of `cluster` to the plan unless the cluster is already
/// broken, and remembers it as broken.
fn push_once(plan: &mut Vec<Break>, done: &mut Visited, cluster: usize, velocity: Vector)
    requires
        visited_members(old(done)) == broken(old(plan)@),
    ensures
        final(plan)@ == old(plan)@ + break_once(broken(old(plan)@), cluster, velocity),
        visited_members(final(done)) == broken(final(plan)@),
        broken(final(plan)@) == broken(old(plan)@).insert(cluster),
{
    if !visited_contains(done, cluster) {
        proof {
            lemma_broken_push(plan@, Break { cluster, velocity });
        }
        plan.push(Break { cluster, velocity });
        visited_insert(done, cluster);
        assert(plan@ == old(plan)@ + seq![Break { cluster, velocity }]);
    } else {
        assert(plan@ == old(plan)@ + Seq::<Break>::empty());
        assert(broken(plan@).insert(cluster) == broken(plan@));
    }
}

impl World {
    /// The two distinct clusters whose rocks an event brings together.
    pub fn meeting(&self, event: CollisionEvent) -> (r: Option<(usize, usize)>)
        ensures
            r == self.spec_meeting(event),
    {
        match event {
            CollisionEvent::Started(a, b) => {
                let first = self.cluster_of(a);
                let second = self.cluster_of(b);
                match (first, second) {
                    (Some(first), Some(second)) => if first != second {
                        Some((first, second))
                    } else {
                        None
                    },
                    _ => None,
                }
            },
            CollisionEvent::Stopped(_, _) => None,
        }
    }

    /// Decides which clusters a batch of collisions shatters, and with what
    /// velocity their rocks fly off. No cluster is shattered twice.
    pub fn plan_fractures(&self, events: &Vec<CollisionEvent>) -> (plan: Vec<Break>)
        ensures
            plan@ == self.fracture_plan(events@),
    {
        let mut plan: Vec<Break> = Vec::new();
        let mut done: Visited = visited_new();
        let mut i: usize = 0;
        assert(broken(plan@) =~= Set::<usize>::empty());
        assert(events@.take(0) == Seq::<CollisionEvent>::empty());
        while i < events.len()
            invariant
                i <= events.len(),
                plan@ == self.fracture_plan(events@.take(i as int)),
                visited_members(&done) == broken(plan@),
            decreases events.len() - i,
        {
            let event = events[i];
            let ghost before = plan@;
            proof {
                assert(events@.take(i + 1).drop_last() == events@.take(i as int));
                assert(events@.take(i + 1).last() == event);
            }
            match self.meeting(event) {
                Some((first, second)) => {
                    let a = self.cluster(first).unwrap();
                    let b = self.cluster(second).unwrap();
                    match clash(&a, &b) {
                        Clash::Harmless => {
                            assert(plan@ == before + Seq::<Break>::empty());
                        },
                        Clash::SecondBreaks => {
                            push_once(&mut plan, &mut done, second, a.velocity);
                        },
                        Clash::FirstBreaks => {
                            push_once(&mut plan, &mut done, first, b.velocity);
                        },
                        Clash::BothBreak => {
                            push_once(&mut plan, &mut done, second, b.velocity);
                            let ghost middle = plan@;
                            push_once(&mut plan, &mut done, first, a.velocity);
                            proof {
                                let x = break_once(broken(before), second, b.velocity);
                                let y = break_once(broken(before), first, a.velocity);
                                assert(break_once(broken(middle), first, a.velocity) == y);
                                assert(plan@ == before + (x + y));
                            }
                        },
                    }
                },
                None => {
                    assert(plan@ == before + Seq::<Break>::empty());
                },
            }
            i += 1;
        }
        proof {
            assert(events@.take(events.len() as int) == events@);
        }
        plan
    }

    /// Carries out a plan: every rock of a broken cluster becomes a free rock
    /// with the plan's velocity, marked to return to the grid, and the broken
    /// clusters are gone.
    pub fn shatter(&mut self, plan: &Vec<Break>)
        requires
            old(self).wf(),
        ensures
            final(self).wf(),
            final(self).rocks@ == old(self).rocks@.map(
                |i: int, r: Option<Rock>| shattered_rock(r, plan@),
            ),
            final(self).clusters@ == old(self).clusters@.map(
                |i: int, c: Option<ParentObject>| shattered_cluster(c, i, plan@),
            ),
            final(self).sandbox == old(self).sandbox,
            final(self).players == old(self).players,
            final(self).grab_state == old(self).grab_state,
    {
        let mut i: usize = 0;
        while i < self.rocks.len()
            invariant
                i <= self.rocks@.len(),
                self.rocks@.len() == old(self).rocks@.len(),
                forall|k: int|
                    0 <= k < i ==> self.rocks@[k] == shattered_rock(
                        #[trigger] old(self).rocks@[k],
                        plan@,
                    ),
                forall|k: int| i <= k < self.rocks@.len() ==> self.rocks@[k] == old(self).rocks@[k],
                self.clusters == old(self).clusters,
                self.sandbox == old(self).sandbox,
                self.players == old(self).players,
                self.grab_state == old(self).grab_state,
            decreases self.rocks@.len() - i,
        {
            if let Some(rock) = self.rocks[i] {
                if let Some(c) = rock.parent {
                    if let Some(v) = find_fate(plan, c) {
                        self.rocks.set(
                            i,
                            Some(
                                Rock {
                                    position: rock.position,
                                    velocity: v,
                                    parent: None,
                                    put_back: Some(PutBackIntoSandbox),
                                },
                            ),
                        );
                    }
                }
            }
            i += 1;
        }
        let mut c: usize = 0;
        while c < self.clusters.len()
            invariant
                c <= self.clusters@.len(),
                self.clusters@.len() == old(self).clusters@.len(),
                forall|k: int|
                    0 <= k < c ==> self.clusters@[k] == shattered_cluster(
                        #[trigger] old(self).clusters@[k],
                        k,
                        plan@,
                    ),
                forall|k: int|
                    c <= k < self.clusters@.len() ==> self.clusters@[k] == old(self).clusters@[k],
                self.rocks@ == old(self).rocks@.map(
                    |i: int, r: Option<Rock>| shattered_rock(r, plan@),
                ),
                self.sandbox == old(self).sandbox,
                self.players == old(self).players,
                self.grab_state == old(self).grab_state,
            decreases self.clusters@.len() - c,
        {
            if find_fate(plan, c).is_some() {
                self.clusters.set(c, None);
            }
            c += 1;
        }
        assert(self.clusters@ =~= old(self).clusters@.map(
            |i: int, c: Option<ParentObject>| shattered_cluster(c, i, plan@),
        ));
    }

    /// Lets the clusters that collided shatter each other. Returns the
    /// breaks in the order they were decided.
    pub fn damage_rock(&mut self, events: &Vec<CollisionEvent>) -> (plan: Vec<Break>)
        requires
            old(self).wf(),
        ensures
            final(self).wf(),
            plan@ == old(self).fracture_plan(events@),
            final(self).rocks@ == old(self).rocks@.map(
                |i: int, r: Option<Rock>| shattered_rock(r, plan@),
            ),
            final(self).clusters@ == old(self).clusters@.map(
                |i: int, c: Option<ParentObject>| shattered_cluster(c, i, plan@),
            ),
            final(self).sandbox == old(self).sandbox,
            final(self).players == old(self).players,
            final(self).grab_state == old(self).grab_state,
    {
        let plan = self.plan_fractures(events);
        self.shatter(&plan);
        plan
    }
}

/// A break added to a plan decides the fate of its cluster only if the plan
/// had not decided it yet.
pub proof fn lemma_fate_push(plan: Seq<Break>, b: Break, cluster: usize)
    ensures
        fate(plan.push(b), cluster) == if fate(plan, cluster) is Some {
            fate(plan, cluster)
        } else if b.cluster == cluster {
            Some(b.velocity)
        } else {
            None
        },
{
    assert(plan.push(b).drop_last() == plan);
}

/// The fate a plan of one break decides.
pub proof fn lemma_fate_of_one(b: Break, cluster: usize)
    ensures
        fate(seq![b], cluster) == if b.cluster == cluster {
            Some(b.velocity)
        } else {
            None
        },
{
    lemma_fate_push(Seq::<Break>::empty(), b, cluster);
    assert(Seq::<Break>::empty().push(b) == seq![b]);
}

/// The fate a plan of two breaks decides.
pub proof fn lemma_fate_of_two(x: Break, y: Break, cluster: usize)
    ensures
        fate(seq![x, y], cluster) == if x.cluster == cluster {
            Some(x.velocity)
        } else if y.cluster == cluster {
            Some(y.velocity)
        } else {
            None
        },
{
    lemma_fate_of_one(x, cluster);
    lemma_fate_push(seq![x], y, cluster);
    assert(seq![x].push(y) == seq![x, y]);
}

/// No batch of collisions shatters a cluster twice: the breaks of a plan
/// name pairwise distinct clusters.
pub proof fn law_breaks_at_most_once(world: &World, events: Seq<CollisionEvent>)
    ensures
        forall|i: int, j: int|
            0 <= i < j < world.fracture_plan(events).len() ==> (#[trigger] world.fracture_plan(
                events,
            )[i]).cluster != (#[trigger] world.fracture_plan(events)[j]).cluster,
    decreases events.len(),
{
    if events.len() > 0 {
        law_breaks_at_most_once(world, events.drop_last());
        let before = world.fracture_plan(events.drop_last());
        let added = world.event_breaks(broken(before), events.last());
        let plan = world.fracture_plan(events);
        assert(plan == before + added);
        assert forall|i: int, j: int| 0 <= i < j < plan.len() implies (#[trigger] plan[i]).cluster
            != (#[trigger] plan[j]).cluster by {
            if j >= before.len() {
                let cj = added[j - before.len()].cluster;
                assert(!broken(before).contains(cj));
                if i < before.len() {
                    assert(before[i].cluster != cj);
                }
            }
        }
    }
}

/// Delivering an event a second time right after the first changes nothing.
pub proof fn law_redelivery_is_harmless(
    world: &World,
    events: Seq<CollisionEvent>,
    event: CollisionEvent,
)
    ensures
        world.fracture_plan(events.push(event).push(event)) == world.fracture_plan(
            events.push(event),
        ),
{
    let once = events.push(event);
    let twice = once.push(event);
    assert(once.drop_last() == events);
    assert(twice.drop_last() == once);
    let before = world.fracture_plan(events);
    let added = world.event_breaks(broken(before), event);
    let plan = world.fracture_plan(once);
    assert(plan == before + added);
    let again = world.event_breaks(broken(plan), event);
    assert forall|k: int| 0 <= k < added.len() implies broken(plan).contains(
        (#[trigger] added[k]).cluster,
    ) by {
        assert(plan[before.len() + k] == added[k]);
    }
    assert forall|c: usize| broken(before).contains(c) implies broken(plan).contains(c) by {
        let k = choose|k: int| 0 <= k < before.len() && (#[trigger] before[k]).cluster == c;
        assert(plan[k].cluster == c);
    }
    match world.spec_meeting(event) {
        Some((first, second)) => {
            let a = world.spec_cluster(first as int).unwrap();
            let b = world.spec_cluster(second as int).unwrap();
            match spec_clash(a, b) {
                Clash::Harmless => {},
                Clash::SecondBreaks => {
                    if !broken(before).contains(second) {
                        assert(added[0].cluster == second);
                    }
                },
                Clash::FirstBreaks => {
                    if !broken(before).contains(first) {
                        assert(added[0].cluster == first);
                    }
                },
                Clash::BothBreak => {
                    let x = break_once(broken(before), second, b.velocity);
                    let y = break_once(broken(before), first, a.velocity);
                    if !broken(before).contains(second) {
                        assert(added[0].cluster == second);
                    }
                    if !broken(before).contains(first) {
                        assert(added[x.len() as int].cluster == first);
                    }
                },
            }
        },
        None => {},
    }
    assert(again == Seq::<Break>::empty());
    assert(plan + again == plan);
}

/// Two distinct clusters meet in every event of a batch, in either order,
/// and not both are below the velocity threshold. If one leads in momentum
/// by the overpower difference, exactly the other one breaks, once, and its
/// rocks take the leader's velocity. Otherwise both break, once each, and
/// the rocks of each keep their cluster's velocity.
pub proof fn law_momentum_decides(
    world: &World,
    events: Seq<CollisionEvent>,
    first: usize,
    second: usize,
)
    requires
        events.len() > 0,
        forall|k: int|
            0 <= k < events.len() ==> {
                ||| world.spec_meeting(#[trigger] events[k]) == Some((first, second))
                ||| world.spec_meeting(events[k]) == Some((second, first))
            },
        world.spec_cluster(first as int) is Some,
        world.spec_cluster(second as int) is Some,
        !(world.spec_cluster(first as int).unwrap().spec_speed() < VELOCITYTHRESHOLD
            && world.spec_cluster(second as int).unwrap().spec_speed() < VELOCITYTHRESHOLD),
    ensures
        ({
            let a = world.spec_cluster(first as int).unwrap();
            let b = world.spec_cluster(second as int).unwrap();
            let plan = world.fracture_plan(events);
            if a.spec_momentum() - b.spec_momentum() >= OVERPOWERDIFFERENCE {
                &&& plan == seq![Break { cluster: second, velocity: a.velocity }]
                &&& fate(plan, second) == Some(a.velocity)
                &&& fate(plan, first) is None
            } else if b.spec_momentum() - a.spec_momentum() >= OVERPOWERDIFFERENCE {
                &&& plan == seq![Break { cluster: first, velocity: b.velocity }]
                &&& fate(plan, first) == Some(b.velocity)
                &&& fate(plan, second) is None
            } else {
                &&& plan.len() == 2
                &&& fate(plan, first) == Some(a.velocity)
                &&& fate(plan, second) == Some(b.velocity)
            }
        }),
    decreases events.len(),
{
    let a = world.spec_cluster(first as int).unwrap();
    let b = world.spec_cluster(second as int).unwrap();
    let earlier = events.drop_last();
    let before = world.fracture_plan(earlier);
    let added = world.event_breaks(broken(before), events.last());
    let plan = world.fracture_plan(events);
    assert(plan == before + added);
    if earlier.len() == 0 {
        assert(before == Seq::<Break>::empty());
        assert(broken(before) =~= Set::<usize>::empty());
        let won = Break { cluster: second, velocity: a.velocity };
        let lost = Break { cluster: first, velocity: b.velocity };
        let x = Break { cluster: second, velocity: b.velocity };
        let y = Break { cluster: first, velocity: a.velocity };
        lemma_fate_of_one(won, first);
        lemma_fate_of_one(won, second);
        lemma_fate_of_one(lost, first);
        lemma_fate_of_one(lost, second);
        lemma_fate_of_two(x, y, first);
        lemma_fate_of_two(x, y, second);
        lemma_fate_of_two(y, x, first);
        lemma_fate_of_two(y, x, second);
        assert(plan == added);
        if spec_clash(a, b) == Clash::BothBreak {
            if world.spec_meeting(events.last()) == Some((first, second)) {
                assert(plan == seq![x, y]);
            } else {
                assert(plan == seq![y, x]);
            }
        }
    } else {
        assert forall|k: int| 0 <= k < earlier.len() implies {
            ||| world.spec_meeting(#[trigger] earlier[k]) == Some((first, second))
            ||| world.spec_meeting(earlier[k]) == Some((second, first))
        } by {
            assert(earlier[k] == events[k]);
        }
        law_momentum_decides(world, earlier, first, second);
        lemma_fate_broken(before, first);
        lemma_fate_broken(before, second);
        if a.spec_momentum() - b.spec_momentum() >= OVERPOWERDIFFERENCE {
            assert(before[0].cluster == second);
            assert(added == Seq::<Break>::empty());
        } else if b.spec_momentum() - a.spec_momentum() >= OVERPOWERDIFFERENCE {
            assert(before[0].cluster == first);
            assert(added == Seq::<Break>::empty());
        } else {
            assert(added == Seq::<Break>::empty());
        }
        assert(plan == before);
    }
}

} // verus!
