use rubble::sandbox::{get_particle, Particle, ParticleTypes, Sandbox, CELL, MAX_DIMENSION};
use rubble::vector::Vector;

fn dirt() -> Option<Particle> {
    Some(get_particle(ParticleTypes::Dirt))
}

#[test]
fn new_grid_is_empty() {
    let grid = Sandbox::new(4, 3).unwrap();
    assert_eq!(grid.width(), 4);
    assert_eq!(grid.height(), 3);
    for x in 0..4 {
        for y in 0..3 {
            assert!(grid.get(x, y).is_none());
        }
    }
}

#[test]
fn new_grid_respects_the_bound() {
    assert!(Sandbox::new(MAX_DIMENSION + 1, 1).is_none());
    assert!(Sandbox::new(1, MAX_DIMENSION + 1).is_none());
    assert!(Sandbox::new(MAX_DIMENSION, 1).is_some());
    assert!(Sandbox::new(0, 0).is_some());
}

#[test]
fn bounds_are_checked_for_signed_coordinates() {
    let grid = Sandbox::new(4, 3).unwrap();
    assert!(grid.in_bounds(0, 0));
    assert!(grid.in_bounds(3, 2));
    assert!(!grid.in_bounds(4, 2));
    assert!(!grid.in_bounds(3, 3));
    assert!(!grid.in_bounds(-1, 0));
    assert!(!grid.in_bounds(0, -1));
    assert!(grid.out_of_bounds_i32(-1, 0));
    assert!(grid.out_of_bounds_i32(4, 0));
    assert!(!grid.out_of_bounds_i32(3, 2));
}

#[test]
fn set_then_get() {
    let mut grid = Sandbox::new(4, 3).unwrap();
    grid.set(2, 1, dirt());
    assert_eq!(grid.get(2, 1), dirt());
    assert!(grid.get(1, 2).is_none());
    assert!(grid.get(2, 0).is_none());
    assert!(grid.get(2, 2).is_none());
    grid.set(2, 1, None);
    assert!(grid.get(2, 1).is_none());
}

#[test]
fn set_keeps_the_colour() {
    let mut grid = Sandbox::new(2, 2).unwrap();
    let p = Particle { kind: ParticleTypes::Dirt, color: (1, 2, 3, 4) };
    grid.set(1, 1, Some(p));
    assert_eq!(grid.get(1, 1), Some(p));
    assert_eq!(grid.checked_get_i32(1, 1), Some(p));
}

#[test]
fn checked_access_ignores_the_outside() {
    let mut grid = Sandbox::new(4, 3).unwrap();
    assert!(!grid.checked_set(4, 0, dirt()));
    assert!(!grid.checked_set(-1, 0, dirt()));
    assert!(grid.checked_set(3, 2, dirt()));
    assert_eq!(grid.checked_get(3, 2), dirt());
    assert_eq!(grid.checked_get(4, 2), None);
    assert_eq!(grid.checked_get(-1, -1), None);
    assert_eq!(grid.checked_get_i32(-5, 1), None);
    for x in 0..4 {
        for y in 0..3 {
            assert_eq!(grid.get(x, y).is_some(), x == 3 && y == 2);
        }
    }
}

#[test]
fn cell_of_centres_the_grid_on_the_origin() {
    let grid = Sandbox::new(10, 6).unwrap();
    assert_eq!(grid.cell_of(Vector::new(0, 0)), (5, 3));
    assert_eq!(grid.cell_of(Vector::new(7999, 7999)), (5, 3));
    assert_eq!(grid.cell_of(Vector::new(8000, -1)), (6, 2));
    assert_eq!(grid.cell_of(Vector::new(-8000, -8001)), (4, 1));
    assert_eq!(grid.cell_of(Vector::new(-40_000, 24_000)), (0, 6));
    assert_eq!(CELL, 8000);
}

#[test]
fn cell_of_odd_sides_rounds_the_centre_down() {
    let grid = Sandbox::new(5, 7).unwrap();
    assert_eq!(grid.cell_of(Vector::new(0, 0)), (2, 3));
}

#[test]
fn clear_square_empties_exactly_the_square() {
    let mut grid = Sandbox::new(6, 6).unwrap();
    for x in 0..6 {
        for y in 0..6 {
            grid.set(x, y, dirt());
        }
    }
    grid.clear_square(2, 3, 1);
    for x in 0..6usize {
        for y in 0..6usize {
            let inside = (1..=3).contains(&x) && (2..=4).contains(&y);
            assert_eq!(grid.get(x, y).is_none(), inside);
        }
    }
}

#[test]
fn clear_square_at_the_corner_stays_inside() {
    let mut grid = Sandbox::new(4, 4).unwrap();
    for x in 0..4 {
        for y in 0..4 {
            grid.set(x, y, dirt());
        }
    }
    grid.clear_square(0, 0, 1);
    let mut empty = 0;
    for x in 0..4 {
        for y in 0..4 {
            if grid.get(x, y).is_none() {
                empty += 1;
                assert!(x <= 1 && y <= 1);
            }
        }
    }
    assert_eq!(empty, 4);
    grid.clear_square(-5, -5, 2);
    grid.clear_square(i32::MAX, i32::MIN, 0);
    assert_eq!(grid.width(), 4);
    assert_eq!(grid.get(3, 3), dirt());
}

#[test]
fn clear_square_of_radius_zero_is_one_cell() {
    let mut grid = Sandbox::new(3, 3).unwrap();
    for x in 0..3 {
        for y in 0..3 {
            grid.set(x, y, dirt());
        }
    }
    grid.clear_square(1, 1, 0);
    for x in 0..3usize {
        for y in 0..3usize {
            assert_eq!(grid.get(x, y).is_none(), x == 1 && y == 1);
        }
    }
}
