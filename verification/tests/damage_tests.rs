use rubble::components::{PlayerBundle, PlayerHealth};
use rubble::damage::{
    damage, knockback, wounded, Hit, Impulse, BREAKGROUNDVELOCITYTHRESHOLD, BREAKRADIUS, DESPAWNFALLENY,
    GROUNDVELOCITYTHRESHOLD, KNOCKBACK, OVERPOWERDIFFERENCE, VELOCITYTHRESHOLD,
    VELOCITYVSEXTERNALDIFFERENCE,
};
use rubble::fracture::{clash, find_fate, Break, Clash};
use rubble::ground::flying;
use rubble::grab::{
    ActualVelocity, AngularDamping, Held, Owner, ParentObject, PutBackIntoSandbox, Rock,
};
use rubble::sandbox::{get_particle, ParticleTypes, Sandbox};
use rubble::vector::Vector;
use rubble::world::{Body, CollisionEvent, Player, World};

fn cluster(vx: i32, vy: i32, mass: u32) -> ParentObject {
    ParentObject {
        position: Vector::zero(),
        velocity: Vector::new(vx, vy),
        mass,
        gravity_scale: 0,
        angular_damping: AngularDamping::Infinite,
        actual: ActualVelocity::default(),
        owner: Owner(0),
        held: Some(Held),
    }
}

fn member(x: i32, y: i32, parent: usize) -> Rock {
    Rock { position: Vector::new(x, y), velocity: Vector::zero(), parent: Some(parent), put_back: None }
}

fn loose(x: i32, y: i32, velocity: Vector) -> Rock {
    Rock { position: Vector::new(x, y), velocity, parent: None, put_back: Some(PutBackIntoSandbox) }
}

fn player(health: i64) -> Player {
    let mut bundle = PlayerBundle::default();
    bundle.health = PlayerHealth(health);
    Player { position: Vector::zero(), index: 0, bundle }
}

fn empty_world() -> World {
    World::new(Sandbox::new(16, 16).unwrap())
}

fn full_world() -> World {
    let mut grid = Sandbox::new(16, 16).unwrap();
    for x in 0..16 {
        for y in 0..16 {
            grid.set(x, y, Some(get_particle(ParticleTypes::Dirt)));
        }
    }
    World::new(grid)
}

fn two_clusters(a: ParentObject, b: ParentObject) -> World {
    let mut world = empty_world();
    world.clusters.push(Some(a));
    world.clusters.push(Some(b));
    world.rocks.push(Some(member(0, 0, 0)));
    world.rocks.push(Some(member(8000, 0, 0)));
    world.rocks.push(Some(member(100_000, 0, 1)));
    world.rocks.push(Some(member(108_000, 8000, 1)));
    world.rocks.push(Some(member(108_000, 0, 1)));
    world
}

fn meet(a: usize, b: usize) -> CollisionEvent {
    CollisionEvent::Started(Body::Rock(a), Body::Rock(b))
}

#[test]
fn thresholds_have_their_values() {
    assert_eq!(OVERPOWERDIFFERENCE, 20_000_000_000);
    assert_eq!(VELOCITYTHRESHOLD, 500_000);
    assert_eq!(GROUNDVELOCITYTHRESHOLD, 5_000);
    assert_eq!(BREAKGROUNDVELOCITYTHRESHOLD, 10_000);
    assert_eq!(BREAKRADIUS, 1);
    assert_eq!(VELOCITYVSEXTERNALDIFFERENCE, 200_000);
    assert_eq!(DESPAWNFALLENY, -1_000_000);
    assert_eq!(KNOCKBACK, 5000);
}

#[test]
fn momentum_is_speed_times_mass() {
    let c = cluster(300_000, -400_000, 36_000);
    assert_eq!(c.speed(), 500_000);
    assert_eq!(c.momentum(), 18_000_000_000);
    assert_eq!(cluster(i32::MIN, i32::MIN, u32::MAX).momentum(), 3_037_000_499 * (u32::MAX as u64));
}

#[test]
fn slow_clusters_do_not_clash() {
    let a = cluster(499_999, 0, 4_000_000_000);
    let b = cluster(0, 0, 1);
    assert_eq!(clash(&a, &b), Clash::Harmless);
    assert_eq!(clash(&b, &a), Clash::Harmless);
}

#[test]
fn one_fast_cluster_is_enough_to_clash() {
    let a = cluster(500_000, 0, 1);
    let b = cluster(0, 0, 1);
    assert_eq!(clash(&a, &b), Clash::BothBreak);
    assert_eq!(clash(&b, &a), Clash::BothBreak);
}

#[test]
fn overpower_needs_the_full_difference() {
    // momenta 20e9 + 500_000 * 1 against 500_000: lead of exactly 20e9
    let strong = cluster(500_000, 0, 40_001);
    let weak = cluster(500_000, 0, 1);
    assert_eq!(strong.momentum() - weak.momentum(), OVERPOWERDIFFERENCE);
    assert_eq!(clash(&strong, &weak), Clash::SecondBreaks);
    assert_eq!(clash(&weak, &strong), Clash::FirstBreaks);
    let almost = cluster(500_000, 0, 40_000);
    assert_eq!(almost.momentum() - weak.momentum(), OVERPOWERDIFFERENCE - 500_000);
    assert_eq!(clash(&almost, &weak), Clash::BothBreak);
    assert_eq!(clash(&weak, &almost), Clash::BothBreak);
}

#[test]
fn overpowered_cluster_breaks_with_the_winners_velocity() {
    let mut world = two_clusters(cluster(600_000, 0, 100_000), cluster(-30_000, 40_000, 1000));
    let plan = world.damage_rock(&vec![meet(0, 2)]);
    assert_eq!(plan, vec![Break { cluster: 1, velocity: Vector::new(600_000, 0) }]);
    assert!(world.clusters[0].is_some());
    assert_eq!(world.clusters[1], None);
    assert_eq!(world.rocks[0], Some(member(0, 0, 0)));
    assert_eq!(world.rocks[1], Some(member(8000, 0, 0)));
    assert_eq!(world.rocks[2], Some(loose(100_000, 0, Vector::new(600_000, 0))));
    assert_eq!(world.rocks[3], Some(loose(108_000, 8000, Vector::new(600_000, 0))));
    assert_eq!(world.rocks[4], Some(loose(108_000, 0, Vector::new(600_000, 0))));
}

#[test]
fn the_order_of_the_bodies_does_not_pick_the_loser() {
    let mut world = two_clusters(cluster(600_000, 0, 100_000), cluster(-30_000, 40_000, 1000));
    let plan = world.damage_rock(&vec![meet(3, 1)]);
    assert_eq!(plan, vec![Break { cluster: 1, velocity: Vector::new(600_000, 0) }]);
    let mut world = two_clusters(cluster(-30_000, 40_000, 1000), cluster(0, 600_000, 100_000));
    let plan = world.damage_rock(&vec![meet(0, 2)]);
    assert_eq!(plan, vec![Break { cluster: 0, velocity: Vector::new(0, 600_000) }]);
    assert_eq!(world.rocks[0], Some(loose(0, 0, Vector::new(0, 600_000))));
    assert_eq!(world.rocks[2], Some(member(100_000, 0, 1)));
    assert_eq!(world.clusters[0], None);
}

#[test]
fn matched_clusters_both_break_and_keep_their_velocity() {
    let mut world = two_clusters(cluster(600_000, 0, 1000), cluster(0, -600_000, 1000));
    let plan = world.damage_rock(&vec![meet(0, 2)]);
    assert_eq!(
        plan,
        vec![
            Break { cluster: 1, velocity: Vector::new(0, -600_000) },
            Break { cluster: 0, velocity: Vector::new(600_000, 0) },
        ]
    );
    assert_eq!(world.clusters, vec![None, None]);
    assert_eq!(world.rocks[0], Some(loose(0, 0, Vector::new(600_000, 0))));
    assert_eq!(world.rocks[1], Some(loose(8000, 0, Vector::new(600_000, 0))));
    assert_eq!(world.rocks[2], Some(loose(100_000, 0, Vector::new(0, -600_000))));
    assert_eq!(world.rocks[4], Some(loose(108_000, 0, Vector::new(0, -600_000))));
}

#[test]
fn repeated_events_break_each_cluster_once() {
    let world = two_clusters(cluster(600_000, 0, 1000), cluster(0, -600_000, 1000));
    let events = vec![meet(0, 2), meet(1, 3), meet(4, 0), meet(0, 2)];
    let plan = world.plan_fractures(&events);
    assert_eq!(plan.len(), 2);
    assert_eq!(plan[0].cluster, 1);
    assert_eq!(plan[1].cluster, 0);
    let world = two_clusters(cluster(600_000, 0, 100_000), cluster(-30_000, 40_000, 1000));
    let plan = world.plan_fractures(&vec![meet(0, 2), meet(2, 0), meet(1, 4)]);
    assert_eq!(plan, vec![Break { cluster: 1, velocity: Vector::new(600_000, 0) }]);
}

#[test]
fn every_event_is_judged_against_the_world_before_the_batch() {
    let mut world = two_clusters(cluster(600_000, 0, 1000), cluster(0, -600_000, 1000));
    world.clusters.push(Some(cluster(1000, 0, 1000)));
    world.rocks.push(Some(member(500_000, 0, 2)));
    let plan = world.plan_fractures(&vec![meet(0, 2), meet(0, 5)]);
    assert_eq!(
        plan,
        vec![
            Break { cluster: 1, velocity: Vector::new(0, -600_000) },
            Break { cluster: 0, velocity: Vector::new(600_000, 0) },
            Break { cluster: 2, velocity: Vector::new(1000, 0) },
        ]
    );
}

#[test]
fn events_that_name_no_two_clusters_are_skipped() {
    let mut world = two_clusters(cluster(600_000, 0, 1000), cluster(0, -600_000, 1000));
    world.rocks.push(Some(loose(0, 0, Vector::zero())));
    world.rocks.push(Some(member(0, 0, 7)));
    world.rocks.push(None);
    let events = vec![
        meet(0, 1),
        meet(0, 5),
        meet(5, 2),
        meet(6, 2),
        meet(7, 2),
        meet(99, 2),
        CollisionEvent::Stopped(Body::Rock(0), Body::Rock(2)),
        CollisionEvent::Started(Body::Rock(0), Body::Ground),
        CollisionEvent::Started(Body::Player(0), Body::Rock(2)),
        CollisionEvent::Started(Body::Other, Body::Other),
    ];
    let before_rocks = world.rocks.clone();
    let before_clusters = world.clusters.clone();
    assert!(world.damage_rock(&events).is_empty());
    assert_eq!(world.rocks, before_rocks);
    assert_eq!(world.clusters, before_clusters);
    assert_eq!(world.meeting(meet(0, 2)), Some((0, 1)));
    assert_eq!(world.meeting(meet(2, 0)), Some((1, 0)));
    assert_eq!(world.meeting(meet(0, 1)), None);
}

#[test]
fn slow_clusters_survive_a_collision() {
    let mut world = two_clusters(cluster(499_999, 0, 4_000_000_000), cluster(0, 0, 1));
    assert!(world.damage_rock(&vec![meet(0, 2)]).is_empty());
    assert!(world.clusters[0].is_some() && world.clusters[1].is_some());
}

#[test]
fn fate_is_that_of_the_first_break() {
    let plan = vec![
        Break { cluster: 3, velocity: Vector::new(1, 1) },
        Break { cluster: 5, velocity: Vector::new(2, 2) },
        Break { cluster: 3, velocity: Vector::new(9, 9) },
    ];
    assert_eq!(find_fate(&plan, 3), Some(Vector::new(1, 1)));
    assert_eq!(find_fate(&plan, 5), Some(Vector::new(2, 2)));
    assert_eq!(find_fate(&plan, 4), None);
    assert_eq!(find_fate(&Vec::new(), 0), None);
}

#[test]
fn damage_is_the_root_of_speed_times_mass() {
    assert_eq!(damage(&cluster(600_000, 0, 1000)), 24_494);
    assert_eq!(damage(&cluster(300_000, 400_000, 36_000)), 134_164);
    assert_eq!(damage(&cluster(0, 0, 36_000)), 0);
    assert_eq!(damage(&cluster(500_000, 0, 0)), 0);
}

#[test]
fn fast_foreign_rock_hurts_the_player() {
    let mut world = empty_world();
    world.players.push(Some(player(50_000_000)));
    world.players.push(Some(player(50_000_000)));
    let mut c = cluster(600_000, 0, 1000);
    c.owner = Owner(1);
    world.clusters.push(Some(c));
    world.rocks.push(Some(member(3000, -4000, 0)));
    let hits = world.damage_player(&vec![CollisionEvent::Started(Body::Rock(0), Body::Player(0))]);
    assert_eq!(
        hits,
        vec![Hit {
            player: 0,
            rock: 0,
            damage: 24_494,
            impulse: Impulse { x: -73_482_000, y: 97_976_000 },
        }]
    );
    assert_eq!(world.players[0].unwrap().bundle.health, PlayerHealth(50_000_000 - 24_494));
    assert_eq!(world.players[1].unwrap().bundle.health, PlayerHealth(50_000_000));
    let hits = world.damage_player(&vec![
        CollisionEvent::Started(Body::Player(0), Body::Rock(0)),
        CollisionEvent::Started(Body::Rock(0), Body::Player(0)),
    ]);
    assert_eq!(hits.len(), 2);
    assert_eq!(world.players[0].unwrap().bundle.health, PlayerHealth(50_000_000 - 3 * 24_494));
}

#[test]
fn own_rocks_and_slow_rocks_do_not_hurt() {
    let mut world = empty_world();
    world.players.push(Some(player(100)));
    world.players.push(Some(player(100)));
    let mut own = cluster(900_000, 0, 1000);
    own.owner = Owner(0);
    world.clusters.push(Some(own));
    let mut slow = cluster(499_999, 0, 1_000_000);
    slow.owner = Owner(1);
    world.clusters.push(Some(slow));
    world.rocks.push(Some(member(0, 0, 0)));
    world.rocks.push(Some(member(0, 0, 1)));
    world.rocks.push(Some(loose(0, 0, Vector::new(900_000, 0))));
    let events = vec![
        CollisionEvent::Started(Body::Rock(0), Body::Player(0)),
        CollisionEvent::Started(Body::Rock(1), Body::Player(0)),
        CollisionEvent::Started(Body::Rock(2), Body::Player(0)),
        CollisionEvent::Started(Body::Rock(9), Body::Player(0)),
        CollisionEvent::Started(Body::Rock(0), Body::Player(7)),
        CollisionEvent::Stopped(Body::Rock(0), Body::Player(1)),
        CollisionEvent::Started(Body::Player(0), Body::Player(1)),
        CollisionEvent::Started(Body::Ground, Body::Player(1)),
    ];
    assert!(world.damage_player(&events).is_empty());
    assert_eq!(world.players[0].unwrap().bundle.health, PlayerHealth(100));
    assert_eq!(world.players[1].unwrap().bundle.health, PlayerHealth(100));
    assert_eq!(world.strike(0, 1).unwrap().damage, 30_000);
    assert_eq!(world.strike(0, 0), None);
}

#[test]
fn speed_at_the_threshold_hurts() {
    let mut world = empty_world();
    world.players.push(Some(player(0)));
    let mut c = cluster(500_000, 0, 2000);
    c.owner = Owner(5);
    world.clusters.push(Some(c));
    world.rocks.push(Some(member(1000, 0, 0)));
    let hit = world.hit(CollisionEvent::Started(Body::Player(0), Body::Rock(0))).unwrap();
    assert_eq!(hit.damage, 31_622);
    assert_eq!(hit.impulse, Impulse { x: -158_110_000, y: 0 });
}

#[test]
fn health_stops_at_the_least_value() {
    assert_eq!(wounded(100, 30), 70);
    assert_eq!(wounded(0, 30), -30);
    assert_eq!(wounded(i64::MIN + 5, 30), i64::MIN);
    assert_eq!(wounded(i64::MIN + 30, 30), i64::MIN);
    assert_eq!(wounded(i64::MIN + 31, 30), i64::MIN + 1);
    assert_eq!(wounded(i64::MAX, u32::MAX), i64::MAX - u32::MAX as i64);
}

#[test]
fn dead_players_are_removed() {
    let mut world = empty_world();
    world.players.push(Some(player(1)));
    world.players.push(Some(player(0)));
    world.players.push(None);
    world.players.push(Some(player(-5)));
    world.despawn_player();
    assert!(world.players[0].is_some());
    assert_eq!(world.players[1], None);
    assert_eq!(world.players[2], None);
    assert_eq!(world.players[3], None);
    assert_eq!(world.players.len(), 4);
}

#[test]
fn fallen_rocks_are_removed() {
    let mut world = empty_world();
    world.clusters.push(None);
    world.rocks.push(Some(loose(0, -999_999, Vector::zero())));
    world.rocks.push(Some(loose(0, -1_000_000, Vector::zero())));
    world.rocks.push(Some(member(5, -1_000_001, 0)));
    world.rocks.push(None);
    world.rocks.push(Some(loose(0, i32::MIN, Vector::zero())));
    world.despawn_fallen_rocks();
    assert!(world.rocks[0].is_some());
    assert!(world.rocks[1].is_some());
    assert_eq!(world.rocks[2], None);
    assert_eq!(world.rocks[4], None);
    assert_eq!(world.rocks.len(), 5);
}

fn thrown(vx: i32, measured: i32) -> ParentObject {
    let mut c = cluster(vx, 0, 1000);
    c.actual.linvel = Vector::new(measured, 0);
    c
}

#[test]
fn flying_needs_speed_and_divergence() {
    assert!(!flying(&thrown(4_999, 900_000)));
    assert!(flying(&thrown(5_000, 205_000)));
    assert!(!flying(&thrown(5_000, 204_999)));
    assert!(!flying(&thrown(300_000, 300_000)));
    assert!(!flying(&thrown(300_000, 100_001)));
    assert!(flying(&thrown(300_000, 100_000)));
    assert!(flying(&thrown(300_000, 500_000)));
    assert!(!flying(&thrown(300_000, 499_999)));
}

#[test]
fn carried_cluster_never_craters() {
    let mut world = full_world();
    world.clusters.push(Some(thrown(900_000, 900_000)));
    world.rocks.push(Some(member(0, 0, 0)));
    let hits = world.break_from_ground(&vec![
        CollisionEvent::Started(Body::Rock(0), Body::Ground),
        CollisionEvent::Started(Body::Ground, Body::Rock(0)),
    ]);
    assert!(hits.is_empty());
    assert_eq!(world.rocks[0], Some(member(0, 0, 0)));
    for x in 0..16 {
        for y in 0..16 {
            assert!(world.sandbox.get(x, y).is_some());
        }
    }
}

#[test]
fn hard_impact_knocks_the_rock_off_and_craters() {
    let mut world = full_world();
    world.clusters.push(Some(thrown(300_000, 0)));
    world.rocks.push(Some(member(-17_000, 9_000, 0)));
    world.rocks.push(Some(member(0, 0, 0)));
    let hits = world.break_from_ground(&vec![CollisionEvent::Started(Body::Ground, Body::Rock(0))]);
    assert_eq!(hits, vec![0]);
    assert_eq!(world.rocks[0], Some(loose(-17_000, 9_000, Vector::new(300_000, 0))));
    assert_eq!(world.rocks[1], Some(member(0, 0, 0)));
    assert!(world.clusters[0].is_some());
    // cell of the rock: (-3 + 8, 1 + 8)
    for x in 0..16usize {
        for y in 0..16usize {
            let inside = (4..=6).contains(&x) && (8..=10).contains(&y);
            assert_eq!(world.sandbox.get(x, y).is_none(), inside);
        }
    }
}

#[test]
fn soft_impact_knocks_the_rock_off_without_a_crater() {
    let mut world = full_world();
    world.clusters.push(Some(thrown(9_999, 400_000)));
    world.rocks.push(Some(member(0, 0, 0)));
    let hits = world.break_from_ground(&vec![CollisionEvent::Started(Body::Rock(0), Body::Ground)]);
    assert_eq!(hits, vec![0]);
    assert_eq!(world.rocks[0], Some(loose(0, 0, Vector::new(9_999, 0))));
    for x in 0..16 {
        for y in 0..16 {
            assert!(world.sandbox.get(x, y).is_some());
        }
    }
    let mut world = full_world();
    world.clusters.push(Some(thrown(10_000, 400_000)));
    world.rocks.push(Some(member(0, 0, 0)));
    world.break_from_ground(&vec![CollisionEvent::Started(Body::Rock(0), Body::Ground)]);
    assert!(world.sandbox.get(8, 8).is_none());
    assert!(world.sandbox.get(7, 9).is_none());
    assert!(world.sandbox.get(6, 8).is_some());
}

#[test]
fn repeated_impacts_knock_a_rock_off_once() {
    let mut world = full_world();
    world.clusters.push(Some(thrown(300_000, 0)));
    world.rocks.push(Some(member(0, 0, 0)));
    world.rocks.push(Some(member(-64_000, -64_000, 0)));
    let e = CollisionEvent::Started(Body::Rock(0), Body::Ground);
    let f = CollisionEvent::Started(Body::Ground, Body::Rock(1));
    let hits = world.break_from_ground(&vec![e, f, e, f, e]);
    assert_eq!(hits, vec![0, 1]);
    assert!(world.sandbox.get(0, 0).is_none());
    assert!(world.sandbox.get(1, 1).is_none());
    assert!(world.sandbox.get(2, 2).is_some());
    assert_eq!(world.ground_hit(e), None);
}

#[test]
fn impacts_of_other_bodies_are_ignored() {
    let mut world = full_world();
    world.clusters.push(Some(thrown(300_000, 0)));
    world.rocks.push(Some(member(0, 0, 0)));
    world.rocks.push(Some(loose(0, 0, Vector::new(300_000, 0))));
    world.rocks.push(Some(member(0, 0, 3)));
    let events = vec![
        CollisionEvent::Stopped(Body::Rock(0), Body::Ground),
        CollisionEvent::Started(Body::Rock(0), Body::Rock(0)),
        CollisionEvent::Started(Body::Rock(0), Body::Other),
        CollisionEvent::Started(Body::Rock(1), Body::Ground),
        CollisionEvent::Started(Body::Rock(2), Body::Ground),
        CollisionEvent::Started(Body::Rock(44), Body::Ground),
        CollisionEvent::Started(Body::Player(0), Body::Ground),
        CollisionEvent::Started(Body::Ground, Body::Ground),
    ];
    assert!(world.break_from_ground(&events).is_empty());
    assert!(world.sandbox.get(8, 8).is_some());
}

#[test]
fn knockback_points_away_from_the_rock() {
    assert_eq!(knockback(Vector::new(0, 0), 1000), Impulse { x: 0, y: 0 });
    assert_eq!(knockback(Vector::new(5, 0), 1000), Impulse { x: -5_000_000, y: 0 });
    assert_eq!(knockback(Vector::new(0, -7), 1000), Impulse { x: 0, y: 5_000_000 });
    assert_eq!(knockback(Vector::new(-3000, 4000), 2), Impulse { x: 6000, y: -8000 });
    assert_eq!(knockback(Vector::new(1, 1), 0), Impulse { x: 0, y: 0 });
    assert_eq!(
        knockback(Vector::new(i32::MIN, 0), u32::MAX),
        Impulse { x: 21_474_836_475_000, y: 0 }
    );
}

#[test]
fn knockback_of_a_rock_next_to_the_player_has_full_strength() {
    let push = knockback(Vector::new(2, -2), 24_494);
    assert_eq!(push, Impulse { x: -86_599_271, y: 86_599_271 });
    let strength: i128 = 24_494 * 5000;
    let squared = (push.x as i128) * (push.x as i128) + (push.y as i128) * (push.y as i128);
    assert!(squared <= strength * strength);
    let slack = 2 * (strength / 1_000_000) + 4;
    assert!(squared >= (strength - slack) * (strength - slack));
    assert_eq!(knockback(Vector::new(1, 1), 1000), Impulse { x: -3_535_530, y: -3_535_530 });
}
