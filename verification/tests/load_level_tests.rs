use rubble::load_level::{draw_level, to_index, BYTES_PER_PIXEL};
use rubble::sandbox::{get_particle, Particle, ParticleTypes, Sandbox};

fn picture(width: usize, height: usize) -> Vec<u8> {
    let mut data = Vec::new();
    for y in 0..height {
        for x in 0..width {
            data.push(x as u8);
            data.push(y as u8);
            data.push(7);
            data.push(if (x + y) % 2 == 0 { 255 } else { 0 });
        }
    }
    data
}

#[test]
fn index_counts_rows_first() {
    assert_eq!(to_index(0, 0, 5), 0);
    assert_eq!(to_index(4, 0, 5), 4);
    assert_eq!(to_index(0, 1, 5), 5);
    assert_eq!(to_index(3, 2, 5), 13);
    assert_eq!(BYTES_PER_PIXEL, 4);
}

#[test]
fn opaque_pixels_become_dirt_upside_down() {
    let mut grid = Sandbox::new(4, 3).unwrap();
    assert!(draw_level(&mut grid, 4, 3, &picture(4, 3)));
    for x in 0..4usize {
        for y in 0..3usize {
            let row = 2 - y;
            let expected = if (x + row) % 2 == 0 {
                Some(Particle { kind: ParticleTypes::Dirt, color: (x as u8, row as u8, 7, 255) })
            } else {
                None
            };
            assert_eq!(grid.get(x, y), expected);
        }
    }
}

#[test]
fn transparent_pixels_leave_the_cell_alone() {
    let mut grid = Sandbox::new(2, 2).unwrap();
    grid.set(1, 1, Some(get_particle(ParticleTypes::Dirt)));
    grid.set(0, 1, Some(get_particle(ParticleTypes::Dirt)));
    assert!(draw_level(&mut grid, 2, 2, &picture(2, 2)));
    assert_eq!(grid.get(1, 1), Some(get_particle(ParticleTypes::Dirt)));
    assert_eq!(grid.get(0, 1), Some(Particle { kind: ParticleTypes::Dirt, color: (0, 0, 7, 255) }));
    assert_eq!(grid.get(0, 0), None);
    assert_eq!(grid.get(1, 0), Some(Particle { kind: ParticleTypes::Dirt, color: (1, 1, 7, 255) }));
}

#[test]
fn a_picture_larger_than_the_grid_is_cut() {
    let mut grid = Sandbox::new(2, 2).unwrap();
    assert!(draw_level(&mut grid, 4, 5, &picture(4, 5)));
    // grid row y shows picture row 4 - y
    assert_eq!(grid.get(0, 0), Some(Particle { kind: ParticleTypes::Dirt, color: (0, 4, 7, 255) }));
    assert_eq!(grid.get(1, 0), None);
    assert_eq!(grid.get(0, 1), None);
    assert_eq!(grid.get(1, 1), Some(Particle { kind: ParticleTypes::Dirt, color: (1, 3, 7, 255) }));
}

#[test]
fn a_picture_smaller_than_the_grid_fills_a_corner() {
    let mut grid = Sandbox::new(3, 3).unwrap();
    let data = vec![10, 20, 30, 40];
    assert!(draw_level(&mut grid, 1, 1, &data));
    for x in 0..3usize {
        for y in 0..3usize {
            assert_eq!(grid.get(x, y).is_some(), x == 0 && y == 0);
        }
    }
    assert_eq!(grid.get(0, 0).unwrap().color, (10, 20, 30, 40));
}

#[test]
fn short_data_draws_nothing() {
    let mut grid = Sandbox::new(4, 3).unwrap();
    let mut data = picture(4, 3);
    data.pop();
    assert!(!draw_level(&mut grid, 4, 3, &data));
    for x in 0..4 {
        for y in 0..3 {
            assert!(grid.get(x, y).is_none());
        }
    }
    assert!(!draw_level(&mut grid, usize::MAX, usize::MAX, &data));
    assert!(!draw_level(&mut grid, usize::MAX / 4 + 1, 1, &data));
    assert!(draw_level(&mut grid, 0, 9, &Vec::new()));
    assert!(draw_level(&mut grid, 9, 0, &Vec::new()));
}
