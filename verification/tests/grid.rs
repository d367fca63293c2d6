use plasma_pong::cell::{CellPos, WorldPos};
use plasma_pong::grid::{SpatialHashGrid, NO_ENTRY};

/// Units per cell in the tests that place particles by cell.
const CELL: i32 = 10;

/// The smoothing radius of the simulator, in thousandths of a world unit.
const RADIUS: i32 = 700;

fn next(seed: &mut u64) -> u64 {
    *seed = seed
        .wrapping_mul(6364136223846793005)
        .wrapping_add(1442695040888963407);
    *seed >> 33
}

/// Positions scattered over a domain of 16 by 9 world units.
fn scatter(count: usize, seed: &mut u64) -> Vec<WorldPos> {
    let mut points = Vec::new();
    for _ in 0..count {
        let x = (next(seed) % 16_000) as i32;
        let y = (next(seed) % 9_000) as i32;
        points.push(WorldPos::new(x, y));
    }
    points
}

/// A position in the middle of the cell `(x, y)` of a grid with cells of
/// the width `CELL`.
fn in_cell(x: i32, y: i32) -> WorldPos {
    WorldPos::new(x * CELL + CELL / 2, y * CELL + CELL / 2)
}

fn within(a: WorldPos, b: WorldPos, radius: i32) -> bool {
    let dx = a.x as i128 - b.x as i128;
    let dy = a.y as i128 - b.y as i128;
    radius >= 0 && dx * dx + dy * dy <= (radius as i128) * (radius as i128)
}

fn sorted_set(mut items: Vec<usize>) -> Vec<usize> {
    items.sort();
    items.dedup();
    items
}

fn brute_force_search(points: &[WorldPos], query: WorldPos, radius: i32) -> Vec<usize> {
    (0..points.len())
        .filter(|other| within(points[*other], query, radius))
        .collect()
}

fn filed(size: usize, cell_size: i32, points: &Vec<WorldPos>) -> SpatialHashGrid {
    let mut grid = SpatialHashGrid::new(size, cell_size);
    grid.update_spatial_lookup(points);
    grid
}

#[test]
fn new_grid_files_nothing() {
    let grid = SpatialHashGrid::new(4, RADIUS);
    assert_eq!(grid.table_size(), 4);
    assert_eq!(grid.cell_size(), RADIUS);
    assert_eq!(grid.spatial_lookup(), &vec![]);
    assert_eq!(grid.start_indices(), &vec![NO_ENTRY; 4]);
    assert_eq!(grid.get_candidates(CellPos::new(0, 0)), vec![]);
    assert_eq!(grid.get_neighbours_by_pos(WorldPos::new(0, 0), RADIUS), vec![]);
}

#[test]
fn grid_without_particles_has_no_neighbours() {
    let mut grid = SpatialHashGrid::new(0, RADIUS);
    assert_eq!(grid.table_size(), 0);
    grid.update_spatial_lookup(&vec![]);
    for x in -2..3 {
        for y in -2..3 {
            assert_eq!(grid.get_candidates(CellPos::new(x, y)), vec![]);
            assert_eq!(
                grid.get_neighbours_by_pos(WorldPos::new(x * RADIUS, y * RADIUS), RADIUS),
                vec![]
            );
        }
    }
    assert_eq!(grid.spatial_lookup(), &vec![]);
    assert_eq!(grid.start_indices(), &vec![]);
}

#[test]
fn no_entry_mark_is_the_largest_index() {
    assert_eq!(NO_ENTRY, usize::MAX);
}

#[test]
fn lookup_pairs_each_particle_with_its_key() {
    // Keys modulo 5: (0,0) -> 0, (1,0) -> 15823 % 5 = 3, (0,1) -> 9737333 % 5 = 3,
    // (2,0) -> 31646 % 5 = 1, (1,1) -> 9753156 % 5 = 1.
    let points = vec![
        in_cell(1, 0),
        in_cell(0, 0),
        in_cell(0, 1),
        in_cell(1, 1),
        in_cell(2, 0),
    ];
    let grid = filed(5, CELL, &points);
    assert_eq!(
        grid.spatial_lookup(),
        &vec![(1, 0), (3, 1), (4, 1), (0, 3), (2, 3)]
    );
    assert_eq!(
        grid.start_indices(),
        &vec![0, 1, NO_ENTRY, 3, NO_ENTRY]
    );
}

#[test]
fn rebuild_forgets_the_last_build() {
    let mut grid = SpatialHashGrid::new(2, CELL);
    grid.update_spatial_lookup(&vec![in_cell(0, 0), in_cell(1, 0)]);
    assert_eq!(grid.spatial_lookup(), &vec![(0, 0), (1, 1)]);
    assert_eq!(grid.start_indices(), &vec![0, 1]);
    grid.update_spatial_lookup(&vec![in_cell(1, 0), in_cell(3, 0)]);
    assert_eq!(grid.spatial_lookup(), &vec![(0, 1), (1, 1)]);
    assert_eq!(grid.start_indices(), &vec![NO_ENTRY, 0]);
    assert_eq!(grid.table_size(), 2);
    assert_eq!(grid.cell_size(), CELL);
}

#[test]
fn entries_of_one_key_stand_side_by_side() {
    let mut seed = 7;
    let points = scatter(300, &mut seed);
    let grid = filed(300, RADIUS, &points);
    let lookup = grid.spatial_lookup();
    let starts = grid.start_indices();
    assert_eq!(lookup.len(), 300);
    assert_eq!(starts.len(), 300);
    for at in 1..lookup.len() {
        assert!(lookup[at - 1].1 <= lookup[at].1);
        if lookup[at - 1].1 == lookup[at].1 {
            assert!(lookup[at - 1].0 < lookup[at].0);
        }
    }
    for key in 0..300 {
        let first = lookup.iter().position(|entry| entry.1 == key);
        match first {
            Some(at) => assert_eq!(starts[key], at),
            None => assert_eq!(starts[key], NO_ENTRY),
        }
    }
    let particles = sorted_set(lookup.iter().map(|entry| entry.0).collect());
    assert_eq!(particles, (0..300).collect::<Vec<usize>>());
    for entry in lookup {
        let point = points[entry.0];
        let cell = CellPos::new(point.x.div_euclid(RADIUS), point.y.div_euclid(RADIUS));
        assert_eq!(entry.1, cell.key(300));
    }
}

#[test]
fn candidates_come_block_cell_by_block_cell() {
    // With 1200 keys the nine cells of this block have nine keys.
    let size = 1200;
    let mut points = Vec::new();
    for y in [1, 0, -1] {
        for x in [1, 0, -1] {
            points.push(in_cell(30 + x, 30 + y));
        }
    }
    // Particles far away, under a key of their own (0), up to the table size.
    while points.len() < size {
        points.push(in_cell(500, 500));
    }
    let grid = filed(size, CELL, &points);
    assert_eq!(
        grid.get_candidates(CellPos::new(30, 30)),
        vec![8, 7, 6, 5, 4, 3, 2, 1, 0]
    );
}

#[test]
fn candidates_of_one_cell_come_in_ascending_order() {
    let size = 1200;
    let mut points = vec![in_cell(500, 500); size];
    for particle in [900, 3, 77, 1199, 0] {
        points[particle] = in_cell(4, 4);
    }
    points[5] = in_cell(3, 4);
    points[6] = in_cell(5, 5);
    let grid = filed(size, CELL, &points);
    assert_eq!(
        grid.get_candidates(CellPos::new(4, 4)),
        vec![5, 0, 3, 77, 900, 1199, 6]
    );
}

#[test]
fn neighbours_are_the_candidates_in_reach() {
    let size = 1200;
    let mut points = vec![in_cell(500, 500); size];
    // Around the query at (45, 45): cell (4, 4) of a grid with cells of 10.
    points[2] = WorldPos::new(45, 45); // at the query
    points[9] = WorldPos::new(45, 55); // 10 away, next cell
    points[4] = WorldPos::new(35, 45); // 10 away, next cell
    points[7] = WorldPos::new(52, 52); // about 9.9 away, next cell
    points[1] = WorldPos::new(53, 53); // about 11.3 away, next cell
    points[3] = WorldPos::new(49, 40); // about 6.4 away, same cell
    points[8] = WorldPos::new(30, 30); // far corner of the block
    let grid = filed(size, CELL, &points);
    assert_eq!(
        grid.get_candidates(CellPos::new(4, 4)),
        vec![8, 4, 2, 3, 9, 1, 7]
    );
    assert_eq!(
        grid.get_neighbours_by_pos(WorldPos::new(45, 45), 10),
        vec![4, 2, 3, 9, 7]
    );
    assert_eq!(
        grid.get_neighbours_by_pos(WorldPos::new(45, 45), 9),
        vec![2, 3]
    );
    assert_eq!(
        grid.get_neighbours_by_pos(WorldPos::new(45, 45), 0),
        vec![2]
    );
    assert_eq!(
        grid.get_neighbours_by_pos(WorldPos::new(45, 45), -1),
        vec![]
    );
}

#[test]
fn particle_is_found_once_where_cells_of_the_block_share_a_key() {
    // With one key all nine cells of a block share it.
    let grid = filed(1, CELL, &vec![in_cell(0, 0)]);
    assert_eq!(grid.get_candidates(CellPos::new(40, 40)), vec![0]);
    assert_eq!(grid.get_neighbours_by_pos(in_cell(40, 40), CELL), vec![]);
    assert_eq!(grid.get_neighbours_by_pos(in_cell(0, 0), CELL), vec![0]);

    // With two keys the cells of a block take turns with them.
    let grid = filed(2, CELL, &vec![in_cell(0, 0), in_cell(1, 0)]);
    assert_eq!(grid.get_candidates(CellPos::new(0, 0)), vec![0, 1]);
    assert_eq!(grid.get_candidates(CellPos::new(0, 1)), vec![1, 0]);
    assert_eq!(
        grid.get_neighbours_by_pos(WorldPos::new(9, 5), CELL),
        vec![0, 1]
    );
}

#[test]
fn no_particle_is_found_twice() {
    let mut seed = 17;
    for count in [1usize, 2, 3, 4, 5, 8, 9, 10, 50] {
        let points = scatter(count, &mut seed);
        let grid = filed(count, RADIUS, &points);
        for particle in 0..count {
            let found = grid.get_neighbours_by_pos(points[particle], RADIUS);
            assert_eq!(sorted_set(found.clone()).len(), found.len());
            let cell = CellPos::new(
                points[particle].x.div_euclid(RADIUS),
                points[particle].y.div_euclid(RADIUS),
            );
            let candidates = grid.get_candidates(cell);
            assert_eq!(sorted_set(candidates.clone()).len(), candidates.len());
        }
    }
}

#[test]
fn particle_is_among_its_own_neighbours() {
    let mut seed = 11;
    for count in [1usize, 2, 3, 5, 50, 400] {
        let points = scatter(count, &mut seed);
        let grid = filed(count, RADIUS, &points);
        for particle in 0..count {
            for radius in [0, 1, RADIUS] {
                assert!(grid
                    .get_neighbours_by_pos(points[particle], radius)
                    .contains(&particle));
            }
        }
    }
}

#[test]
fn candidates_hold_every_particle_of_the_block() {
    let mut seed = 23;
    let points = scatter(500, &mut seed);
    let grid = filed(500, RADIUS, &points);
    for x in -1..25 {
        for y in -1..15 {
            let found = grid.get_candidates(CellPos::new(x, y));
            for particle in 0..500 {
                let cell_x = points[particle].x.div_euclid(RADIUS);
                let cell_y = points[particle].y.div_euclid(RADIUS);
                if (cell_x - x).abs() <= 1 && (cell_y - y).abs() <= 1 {
                    assert!(found.contains(&particle));
                }
            }
            for particle in found {
                assert!(particle < 500);
            }
        }
    }
}

#[test]
fn grid_search_equals_brute_force_search() {
    let mut seed = 42;
    for count in [1usize, 2, 3, 4, 7, 16, 100, 1200] {
        let points = scatter(count, &mut seed);
        let grid = filed(count, RADIUS, &points);
        for particle in 0..count {
            assert_eq!(
                sorted_set(grid.get_neighbours_by_pos(points[particle], RADIUS)),
                brute_force_search(&points, points[particle], RADIUS),
                "{count} particles, around particle {particle}"
            );
        }
        for _ in 0..50 {
            let query = WorldPos::new(
                (next(&mut seed) % 18_000) as i32 - 1_000,
                (next(&mut seed) % 11_000) as i32 - 1_000,
            );
            for radius in [RADIUS, RADIUS / 2, 1, 0] {
                assert_eq!(
                    sorted_set(grid.get_neighbours_by_pos(query, radius)),
                    brute_force_search(&points, query, radius),
                    "{count} particles, {radius} around {query:?}"
                );
            }
        }
    }
}

#[test]
fn grid_search_beyond_a_cell_may_miss_particles() {
    // From the middle of cell (0, 0) the particle in cell (2, 0) is 20
    // away: within a radius of 25, but outside the block.
    let points = vec![in_cell(0, 0), in_cell(2, 0)];
    let grid = filed(1200, CELL, &points);
    assert_eq!(brute_force_search(&points, in_cell(0, 0), 25), vec![0, 1]);
    assert_eq!(grid.get_neighbours_by_pos(in_cell(0, 0), 25), vec![0]);
}

#[test]
fn grid_search_around_negative_positions_equals_brute_force_search() {
    let mut seed = 5;
    let points: Vec<WorldPos> = scatter(300, &mut seed)
        .into_iter()
        .map(|point| WorldPos::new(point.x - 8_000, point.y - 4_500))
        .collect();
    let grid = filed(300, RADIUS, &points);
    for particle in 0..300 {
        assert_eq!(
            sorted_set(grid.get_neighbours_by_pos(points[particle], RADIUS)),
            brute_force_search(&points, points[particle], RADIUS)
        );
    }
}

#[test]
fn grid_search_at_the_edge_of_the_world() {
    let points = vec![
        WorldPos::new(i32::MAX, i32::MAX),
        WorldPos::new(i32::MIN, i32::MIN),
        WorldPos::new(i32::MAX - 3, i32::MAX),
        WorldPos::new(0, 0),
        WorldPos::new(i32::MIN, i32::MIN + 4),
    ];
    for cell_size in [1, 5, RADIUS, i32::MAX] {
        let grid = filed(5, cell_size, &points);
        for query in &points {
            for radius in [0, 3, 4, cell_size] {
                if radius <= cell_size {
                    assert_eq!(
                        sorted_set(grid.get_neighbours_by_pos(*query, radius)),
                        brute_force_search(&points, *query, radius),
                        "cells of {cell_size}, {radius} around {query:?}"
                    );
                }
            }
        }
    }
}

#[test]
fn candidates_at_the_edge_of_the_cell_range() {
    let points = vec![
        WorldPos::new(i32::MAX, i32::MAX),
        WorldPos::new(i32::MIN, i32::MIN),
        WorldPos::new(i32::MAX - 1, i32::MAX),
        WorldPos::new(0, 0),
    ];
    let grid = filed(4, 1, &points);
    let high = grid.get_candidates(CellPos::new(i32::MAX, i32::MAX));
    assert!(high.contains(&0));
    assert!(high.contains(&2));
    let low = grid.get_candidates(CellPos::new(i32::MIN, i32::MIN));
    assert!(low.contains(&1));
}
