use spicy::world_gen::cell::OpenmwCell;
use spicy::world_gen::world::{get_cell_grid_coords, get_coords_within_a_cell, OpenmwWorld};

#[test]
fn negative_square_falls_into_negative_cell() {
    assert_eq!(get_cell_grid_coords([-1, 0]), [-1, 0]);
    assert_eq!(get_coords_within_a_cell([-1, 0]), [63, 0]);
    assert_eq!(get_cell_grid_coords([-1, -1]), [-1, -1]);
    assert_eq!(get_coords_within_a_cell([-1, -1]), [63, 63]);
}

#[test]
fn translation_at_cell_borders() {
    assert_eq!(get_cell_grid_coords([0, 0]), [0, 0]);
    assert_eq!(get_coords_within_a_cell([0, 0]), [0, 0]);
    assert_eq!(get_cell_grid_coords([63, 64]), [0, 1]);
    assert_eq!(get_coords_within_a_cell([63, 64]), [63, 0]);
    assert_eq!(get_cell_grid_coords([-64, -65]), [-1, -2]);
    assert_eq!(get_coords_within_a_cell([-64, -65]), [0, 63]);
    assert_eq!(get_cell_grid_coords([130, -129]), [2, -3]);
    assert_eq!(get_coords_within_a_cell([130, -129]), [2, 63]);
}

#[test]
fn translation_at_the_ends_of_the_coordinate_range() {
    assert_eq!(get_cell_grid_coords([i32::MIN, i32::MAX]), [-33554432, 33554431]);
    assert_eq!(get_coords_within_a_cell([i32::MIN, i32::MAX]), [0, 63]);
}

#[test]
fn translation_rebuilds_the_square() {
    for x in [-200, -129, -128, -65, -64, -63, -1, 0, 1, 63, 64, 65, 127, 4000] {
        let cell = get_cell_grid_coords([x, -x]);
        let local = get_coords_within_a_cell([x, -x]);
        assert!(local[0] < 64 && local[1] < 64);
        assert_eq!(cell[0] * 64 + local[0] as i32, x);
        assert_eq!(cell[1] * 64 + local[1] as i32, -x);
    }
}

#[test]
fn new_cell_is_zero_everywhere() {
    let cell = OpenmwCell::new();
    for y in 0..64u32 {
        for x in 0..64u32 {
            assert_eq!(cell.get_elevation([x, y]), 0);
        }
    }
}

#[test]
fn cell_keeps_what_was_set() {
    let mut cell = OpenmwCell::new();
    cell.set_elevation([3, 5], 1234);
    cell.set_elevation([63, 63], -7);
    assert_eq!(cell.get_elevation([3, 5]), 1234);
    assert_eq!(cell.get_elevation([63, 63]), -7);
    assert_eq!(cell.get_elevation([5, 3]), 0);
    assert_eq!(cell.get_elevation([0, 0]), 0);
}

#[test]
fn cell_storage_is_row_major() {
    let mut cell = OpenmwCell::new();
    cell.set_elevation([0, 1], 9);
    assert_eq!(cell.get_elevation([64, 0]), 9);
}

#[test]
fn world_reads_zero_where_nothing_was_written() {
    let world = OpenmwWorld::new();
    assert_eq!(world.get_elevation([0, 0]), 0);
    assert_eq!(world.get_elevation_canonical([-1000, 1000]), 0);
}

#[test]
fn world_stores_sixteen_parts_per_raw_step() {
    let mut world = OpenmwWorld::new();
    world.set_elevation_canonical([10, 20], 3);
    world.set_elevation_canonical([-10, -20], -3);
    assert_eq!(world.get_elevation([10, 20]), 48);
    assert_eq!(world.get_elevation([-10, -20]), -48);
}

#[test]
fn world_returns_the_raw_height_that_was_set() {
    let mut world = OpenmwWorld::new();
    let heights = [0, 1, -1, 127, -128, 200, -200, 32767, i32::MAX, i32::MIN];
    for (i, h) in heights.iter().enumerate() {
        world.set_elevation_canonical([i as i32 * 70 - 300, 5 - i as i32], *h);
    }
    for (i, h) in heights.iter().enumerate() {
        assert_eq!(world.get_elevation_canonical([i as i32 * 70 - 300, 5 - i as i32]), *h);
    }
}

#[test]
fn world_write_touches_one_square_only() {
    let mut world = OpenmwWorld::new();
    world.set_elevation_canonical([64, 0], 11);
    assert_eq!(world.get_elevation_canonical([64, 0]), 11);
    assert_eq!(world.get_elevation_canonical([63, 0]), 0);
    assert_eq!(world.get_elevation_canonical([65, 0]), 0);
    assert_eq!(world.get_elevation_canonical([0, 0]), 0);
    assert_eq!(world.get_elevation_canonical([0, 1]), 0);
    assert_eq!(world.get_elevation_canonical([64, 1]), 0);
    assert_eq!(world.get_elevation_canonical([64, -1]), 0);
}

#[test]
fn world_later_write_replaces_earlier() {
    let mut world = OpenmwWorld::new();
    world.set_elevation_canonical([-1, -1], 5);
    world.set_elevation_canonical([-1, -1], -9);
    assert_eq!(world.get_elevation_canonical([-1, -1]), -9);
}

#[test]
fn world_keeps_cells_with_equal_coordinates_apart() {
    let mut world = OpenmwWorld::new();
    world.set_elevation_canonical([64, 0], 1);
    world.set_elevation_canonical([0, 64], 2);
    world.set_elevation_canonical([-64, 0], 3);
    world.set_elevation_canonical([0, -64], 4);
    world.set_elevation_canonical([0, 0], 5);
    assert_eq!(world.get_elevation_canonical([64, 0]), 1);
    assert_eq!(world.get_elevation_canonical([0, 64]), 2);
    assert_eq!(world.get_elevation_canonical([-64, 0]), 3);
    assert_eq!(world.get_elevation_canonical([0, -64]), 4);
    assert_eq!(world.get_elevation_canonical([0, 0]), 5);
}
