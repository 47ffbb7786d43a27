use rubble::components::PlayerBundle;
use rubble::grab::{ActualVelocity, AngularDamping, Held, Owner, ParentObject, Rock};
use rubble::parry::{redirected, Parry, Timer};
use rubble::sandbox::Sandbox;
use rubble::vector::Vector;
use rubble::world::{Body, Player, World};

fn world_with_clusters() -> World {
    let mut world = World::new(Sandbox::new(8, 8).unwrap());
    world.players.push(Some(Player {
        position: Vector::zero(),
        index: 0,
        bundle: PlayerBundle::default(),
    }));
    world.players.push(Some(Player {
        position: Vector::zero(),
        index: 1,
        bundle: PlayerBundle::default(),
    }));
    for owner in [0usize, 0, 1] {
        world.clusters.push(Some(ParentObject {
            position: Vector::zero(),
            velocity: Vector::new(700_000, 0),
            mass: 1000,
            gravity_scale: 0,
            angular_damping: AngularDamping::Infinite,
            actual: ActualVelocity::default(),
            owner: Owner(owner),
            held: if owner == 0 { Some(Held) } else { None },
        }));
    }
    for parent in [Some(0usize), Some(0), Some(1), Some(2), None, Some(8)] {
        world.rocks.push(Some(Rock {
            position: Vector::zero(),
            velocity: Vector::zero(),
            parent,
            put_back: None,
        }));
    }
    world
}

#[test]
fn default_parry() {
    let p = Parry::default();
    assert_eq!(p.max_radius, 70_000);
    assert_eq!(p.min_radius, 10_000);
    assert_eq!(p.current_radius, 140_000);
    assert_eq!(p.duration, 100_000);
    assert_eq!(p.regen_rate, 10_000);
    assert_eq!(p.falloff, 70_000);
    assert_eq!(p.time_left, Timer { duration: 0, elapsed: 0, finished: false, just_finished: false });
    assert!(p.active());
}

#[test]
fn timer_counts_up_to_its_duration() {
    let mut t = Timer::new(100);
    assert!(t.running());
    t.tick(40);
    assert_eq!(t, Timer { duration: 100, elapsed: 40, finished: false, just_finished: false });
    t.tick(59);
    assert!(!t.finished);
    t.tick(1);
    assert_eq!(t, Timer { duration: 100, elapsed: 100, finished: true, just_finished: true });
    assert!(!t.running());
    t.tick(1000);
    assert_eq!(t, Timer { duration: 100, elapsed: 100, finished: true, just_finished: false });
}

#[test]
fn timer_overshoot_and_overflow_stop_at_the_duration() {
    let mut t = Timer::new(100);
    t.tick(5000);
    assert_eq!(t.elapsed, 100);
    assert!(t.finished && t.just_finished);
    let mut t = Timer::new(u64::MAX);
    t.tick(u64::MAX - 1);
    assert!(!t.finished);
    t.tick(17);
    assert_eq!(t.elapsed, u64::MAX);
    assert!(t.finished);
    let mut t = Timer::new(0);
    assert!(!t.finished);
    t.tick(0);
    assert!(t.finished && t.just_finished);
}

#[test]
fn pressing_opens_a_window_unless_one_runs() {
    let mut p = Parry::default();
    p.initiate();
    assert_eq!(p.time_left, Timer::new(100_000));
    p.time_left.tick(30_000);
    p.initiate();
    assert_eq!(p.time_left.elapsed, 30_000);
    p.time_left.tick(70_000);
    assert!(!p.active());
    p.initiate();
    assert_eq!(p.time_left, Timer::new(100_000));
    assert!(p.active());
}

#[test]
fn radius_recovers_up_to_the_maximum() {
    let mut p = Parry::default();
    p.current_radius = 10_000;
    p.regen(16_667);
    assert_eq!(p.current_radius, 10_166);
    p.regen(1_000_000);
    assert_eq!(p.current_radius, 20_166);
    p.regen(5_000_000);
    assert_eq!(p.current_radius, 70_000);
    p.regen(u64::MAX);
    assert_eq!(p.current_radius, 70_000);
    let mut q = Parry::default();
    q.regen(0);
    assert_eq!(q.current_radius, 70_000);
}

#[test]
fn closing_window_shrinks_the_radius() {
    let mut p = Parry::default();
    p.current_radius = 70_000;
    p.initiate();
    p.run(60_000);
    assert_eq!(p.current_radius, 70_000);
    p.run(40_000);
    assert_eq!(p.current_radius, 10_000);
    assert!(!p.active());
    p.run(40_000);
    assert_eq!(p.current_radius, 10_000);
    let mut q = Parry::default();
    q.initiate();
    q.run(100_000);
    assert_eq!(q.current_radius, 70_000);
    let mut r = Parry::default();
    r.current_radius = 85_000;
    r.initiate();
    r.run(100_000);
    assert_eq!(r.current_radius, 15_000);
}

#[test]
fn parry_takes_over_touched_clusters() {
    let mut world = world_with_clusters();
    world.initate_parry(1);
    assert_eq!(world.parry_radius(1), Some(140_000));
    let touched = vec![Body::Rock(1), Body::Rock(3), Body::Rock(0), Body::Rock(4), Body::Rock(5)];
    let turned = world.parry(1, &touched, 16_000);
    assert_eq!(turned, vec![0, 2, 0]);
    let c0 = world.clusters[0].unwrap();
    assert_eq!(c0.owner, Owner(1));
    assert_eq!(c0.held, None);
    assert_eq!(c0.velocity, Vector::new(700_000, 0));
    assert_eq!(c0.gravity_scale, 0);
    let c1 = world.clusters[1].unwrap();
    assert_eq!(c1.owner, Owner(0));
    assert_eq!(c1.held, Some(Held));
    assert_eq!(world.clusters[2].unwrap().owner, Owner(1));
    let p = world.players[1].unwrap().bundle.parry;
    assert_eq!(p.time_left.elapsed, 16_000);
    assert_eq!(p.current_radius, 140_000);
    assert_eq!(world.players[0].unwrap().bundle, PlayerBundle::default());
}

#[test]
fn parry_outside_the_window_does_nothing() {
    let mut world = world_with_clusters();
    world.initate_parry(1);
    assert_eq!(world.parry(1, &Vec::new(), 100_000), Vec::<usize>::new());
    assert_eq!(world.players[1].unwrap().bundle.parry.current_radius, 70_000);
    assert_eq!(world.parry_radius(1), None);
    let turned = world.parry(1, &vec![Body::Rock(0)], 16_000);
    assert!(turned.is_empty());
    assert_eq!(world.clusters[0].unwrap().owner, Owner(0));
    assert_eq!(world.clusters[0].unwrap().held, Some(Held));
    assert_eq!(world.players[1].unwrap().bundle.parry.current_radius, 70_000);
    assert!(world.parry(9, &vec![Body::Rock(0)], 16_000).is_empty());
    assert_eq!(world.parry_radius(9), None);
}

#[test]
fn a_fresh_player_has_an_open_window_of_no_length() {
    let mut world = world_with_clusters();
    assert_eq!(world.parry_radius(0), Some(140_000));
    let turned = world.parry(0, &vec![Body::Rock(3)], 1);
    assert_eq!(turned, vec![2]);
    assert_eq!(world.clusters[2].unwrap().owner, Owner(0));
    assert_eq!(world.players[0].unwrap().bundle.parry.current_radius, 70_000);
    assert_eq!(world.parry_radius(0), None);
}

#[test]
fn every_player_recovers() {
    let mut world = world_with_clusters();
    world.players.push(None);
    let mut slow = world.players[0].unwrap();
    slow.bundle.parry.current_radius = 1000;
    world.players[0] = Some(slow);
    world.regen_parry(500_000);
    assert_eq!(world.players[0].unwrap().bundle.parry.current_radius, 6000);
    assert_eq!(world.players[1].unwrap().bundle.parry.current_radius, 70_000);
    assert_eq!(world.players[2], None);
}

#[test]
fn redirection_turns_the_velocity_away() {
    // flying straight away from the player: unchanged
    assert_eq!(
        redirected(Vector::new(700_000, 0), Vector::new(-100_000, 0)),
        Vector::new(700_000, 0)
    );
    // falling past a player on the right: pushed down and to the left
    assert_eq!(
        redirected(Vector::new(0, -500_000), Vector::new(1000, 0)),
        Vector::new(-353_553, -353_553)
    );
    assert_eq!(
        redirected(Vector::new(300_000, 400_000), Vector::new(0, -5)),
        Vector::new(158_113, 474_341)
    );
    // nothing to turn, and nowhere to turn from
    assert_eq!(redirected(Vector::new(0, 0), Vector::new(5, 5)), Vector::new(0, 0));
    assert_eq!(redirected(Vector::new(700_000, 0), Vector::new(0, 0)), Vector::new(700_000, 0));
    assert_eq!(
        redirected(Vector::new(i32::MIN, i32::MIN), Vector::new(i32::MAX, i32::MAX)),
        Vector::new(-2_147_481_274, -2_147_481_274)
    );
}

#[test]
fn redirection_sends_a_head_on_cluster_straight_back() {
    assert_eq!(
        redirected(Vector::new(700_000, 0), Vector::new(100_000, 0)),
        Vector::new(-700_000, 0)
    );
    // player at the origin, cluster at (100, 0) flying at the player with speed 300
    let back = redirected(Vector::new(-300_000, 0), Vector::new(-100_000, 0));
    assert_eq!(back, Vector::new(300_000, 0));
    assert_eq!(back.length(), 300_000);
    assert_eq!(
        redirected(Vector::new(-3000, 4000), Vector::new(-6, 8)),
        Vector::new(3000, -4000)
    );
}

#[test]
fn redirection_keeps_the_speed_when_nearly_head_on() {
    // player at the origin, cluster at (351.040, 362.053) flying a hair off the line
    let before = Vector::new(-351_039, -362_054);
    let after = redirected(before, Vector::new(-351_040, -362_053));
    assert_eq!(before.length(), 504_293);
    assert_eq!(after, Vector::new(356_588, -356_588));
    assert_eq!(after.length(), 504_291);
    let samples = [
        (Vector::new(1, 0), Vector::new(1, 1)),
        (Vector::new(-7, 3), Vector::new(5, 5)),
        (Vector::new(1_000_000_000, -1), Vector::new(1_000_000_000, 1)),
        (Vector::new(123_456, 654_321), Vector::new(-1, 0)),
        (Vector::new(2_000_000_000, 700_000_000), Vector::new(3, -4)),
    ];
    for (velocity, towards) in samples {
        let speed = velocity.length() as u64;
        let turned = redirected(velocity, towards).length() as u64;
        assert!(turned <= speed);
        assert!(speed <= turned + 2 * (speed / 1_000_000) + 4);
    }
}

#[test]
fn parry_turns_clusters_once_for_each_touched_rock() {
    let mut world = world_with_clusters();
    let mut mover = world.players[1].unwrap();
    mover.position = Vector::new(1000, 0);
    world.players[1] = Some(mover);
    let mut falling = world.clusters[0].unwrap();
    falling.velocity = Vector::new(0, -500_000);
    world.clusters[0] = Some(falling);
    world.initate_parry(1);
    let turned = world.parry(1, &vec![Body::Rock(0)], 1);
    assert_eq!(turned, vec![0]);
    assert_eq!(world.clusters[0].unwrap().velocity, Vector::new(-353_553, -353_553));
    let turned = world.parry(1, &vec![Body::Rock(0), Body::Rock(1)], 1);
    assert_eq!(turned, vec![0, 0]);
    assert_eq!(world.clusters[0].unwrap().velocity, Vector::new(-490_390, -97_544));
    assert_eq!(world.clusters[0].unwrap().position, Vector::zero());
}
