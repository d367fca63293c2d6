use plasma_pong::cell::{
    create_cell_hash, is_within, world_pos_to_cell_pos, CellPos, WorldPos, HASH_FACTOR_X,
    HASH_FACTOR_Y,
};

#[test]
fn hash_of_origin_is_zero() {
    assert_eq!(create_cell_hash(CellPos::new(0, 0)), 0);
}

#[test]
fn hash_is_weighted_sum_of_coordinates() {
    assert_eq!(create_cell_hash(CellPos::new(1, 0)), 15823);
    assert_eq!(create_cell_hash(CellPos::new(0, 1)), 9737333);
    assert_eq!(create_cell_hash(CellPos::new(1, 2)), 19490489);
    assert_eq!(create_cell_hash(CellPos::new(22, 12)), 22 * 15823 + 12 * 9737333);
}

#[test]
fn hash_factors_are_the_documented_constants() {
    assert_eq!(HASH_FACTOR_X, 15823);
    assert_eq!(HASH_FACTOR_Y, 9737333);
}

#[test]
fn hash_of_negative_coordinates_wraps_around() {
    assert_eq!(create_cell_hash(CellPos::new(-1, 0)), u64::MAX - 15822);
    assert_eq!(create_cell_hash(CellPos::new(0, -1)), u64::MAX - 9737332);
    assert_eq!(create_cell_hash(CellPos::new(-1, -1)), u64::MAX - 15823 - 9737333 + 1);
    // A negative and a positive part that cancel give the plain difference.
    assert_eq!(create_cell_hash(CellPos::new(-1, 1)), 9737333 - 15823);
}

#[test]
fn hash_agrees_with_wrapping_machine_arithmetic() {
    let samples: [(i32, i32); 8] = [
        (0, 0),
        (3, -7),
        (-3, 7),
        (i32::MAX, i32::MAX),
        (i32::MIN, i32::MIN),
        (i32::MAX, i32::MIN),
        (i32::MIN, i32::MAX),
        (-12345, -54321),
    ];
    for (x, y) in samples {
        let expected = (x as i64 as u64)
            .wrapping_mul(15823)
            .wrapping_add((y as i64 as u64).wrapping_mul(9737333));
        assert_eq!(create_cell_hash(CellPos::new(x, y)), expected, "cell ({x}, {y})");
    }
}

#[test]
fn key_is_hash_modulo_table_size() {
    assert_eq!(CellPos::new(1, 2).key(7), 4);
    assert_eq!(CellPos::new(1, 2).key(1200), 19490489 % 1200);
    assert_eq!(CellPos::new(0, 0).key(5), 0);
    assert_eq!(
        CellPos::new(-1, 0).key(1200),
        ((u64::MAX - 15822) % 1200) as usize
    );
}

#[test]
fn key_of_single_slot_table_is_zero() {
    for x in -3..=3 {
        for y in -3..=3 {
            assert_eq!(CellPos::new(x, y).key(1), 0);
        }
    }
}

#[test]
fn key_is_below_table_size() {
    for size in [1usize, 2, 3, 10, 1200, 65536] {
        for x in -20..20 {
            for y in -20..20 {
                assert!(CellPos::new(x, y).key(size) < size);
            }
        }
    }
}

#[test]
fn cells_compare_by_coordinates() {
    assert_eq!(CellPos::new(4, -2), CellPos { x: 4, y: -2 });
    assert_ne!(CellPos::new(4, -2), CellPos::new(-2, 4));
}

#[test]
fn positions_compare_by_coordinates() {
    assert_eq!(WorldPos::new(4, -2), WorldPos { x: 4, y: -2 });
    assert_ne!(WorldPos::new(4, -2), WorldPos::new(-2, 4));
}

#[test]
fn cell_of_a_position_is_the_quotient_rounded_down() {
    assert_eq!(
        world_pos_to_cell_pos(WorldPos::new(0, 0), 700),
        CellPos::new(0, 0)
    );
    assert_eq!(
        world_pos_to_cell_pos(WorldPos::new(699, 700), 700),
        CellPos::new(0, 1)
    );
    assert_eq!(
        world_pos_to_cell_pos(WorldPos::new(15_999, 8_999), 700),
        CellPos::new(22, 12)
    );
    assert_eq!(
        world_pos_to_cell_pos(WorldPos::new(1_400, 1_399), 700),
        CellPos::new(2, 1)
    );
}

#[test]
fn cells_below_zero_are_rounded_down_too() {
    assert_eq!(
        world_pos_to_cell_pos(WorldPos::new(-1, -700), 700),
        CellPos::new(-1, -1)
    );
    assert_eq!(
        world_pos_to_cell_pos(WorldPos::new(-701, -1_400), 700),
        CellPos::new(-2, -2)
    );
    assert_eq!(
        world_pos_to_cell_pos(WorldPos::new(-1_401, 1), 700),
        CellPos::new(-3, 0)
    );
}

#[test]
fn cell_of_a_position_agrees_with_euclidean_division() {
    let coordinates = [
        i32::MIN,
        i32::MIN + 1,
        -1_000_000,
        -701,
        -700,
        -699,
        -1,
        0,
        1,
        699,
        700,
        701,
        1_000_000,
        i32::MAX - 1,
        i32::MAX,
    ];
    for cell_size in [1, 2, 3, 700, 734_003, i32::MAX] {
        for x in coordinates {
            for y in coordinates {
                assert_eq!(
                    world_pos_to_cell_pos(WorldPos::new(x, y), cell_size),
                    CellPos::new(x.div_euclid(cell_size), y.div_euclid(cell_size)),
                    "({x}, {y}) in cells of {cell_size}"
                );
            }
        }
    }
}

#[test]
fn within_compares_the_squared_distance() {
    let origin = WorldPos::new(0, 0);
    assert!(is_within(origin, origin, 0));
    assert!(is_within(origin, WorldPos::new(3, 4), 5));
    assert!(!is_within(origin, WorldPos::new(3, 4), 4));
    assert!(is_within(WorldPos::new(-3, 4), origin, 5));
    assert!(is_within(WorldPos::new(10, 10), WorldPos::new(7, 14), 5));
    assert!(!is_within(WorldPos::new(10, 10), WorldPos::new(7, 15), 5));
    assert!(is_within(origin, WorldPos::new(700, 0), 700));
    assert!(!is_within(origin, WorldPos::new(700, 1), 700));
    assert!(is_within(origin, WorldPos::new(494, 495), 700));
    assert!(!is_within(origin, WorldPos::new(495, 495), 700));
}

#[test]
fn nothing_is_within_a_negative_radius() {
    let origin = WorldPos::new(0, 0);
    assert!(!is_within(origin, origin, -1));
    assert!(!is_within(origin, origin, i32::MIN));
}

#[test]
fn within_takes_the_farthest_positions() {
    let low = WorldPos::new(i32::MIN, i32::MIN);
    let high = WorldPos::new(i32::MAX, i32::MAX);
    assert!(!is_within(low, high, i32::MAX));
    assert!(!is_within(high, low, i32::MAX));
    assert!(is_within(high, high, 0));
    assert!(is_within(
        WorldPos::new(i32::MAX, 0),
        WorldPos::new(0, 0),
        i32::MAX
    ));
    assert!(!is_within(
        WorldPos::new(i32::MAX, 1),
        WorldPos::new(0, 0),
        i32::MAX
    ));
    assert!(is_within(
        WorldPos::new(i32::MIN + 1, 0),
        WorldPos::new(0, 0),
        i32::MAX
    ));
    assert!(!is_within(
        WorldPos::new(i32::MIN, 0),
        WorldPos::new(0, 0),
        i32::MAX
    ));
}
