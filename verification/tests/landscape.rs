use spicy::landscape::{
    decode_landscape, delta_from_byte, delta_to_byte, encode_landscape, LandscapeError,
};
use spicy::world_gen::world::OpenmwWorld;

fn deltas(seed: u32) -> Vec<u8> {
    let mut state = seed;
    let mut data = Vec::new();
    for _ in 0..4225 {
        state = state.wrapping_mul(1664525).wrapping_add(1013904223);
        data.push((state >> 24) as u8);
    }
    data
}

fn height(offset: i32, data: &[u8], ix: usize, iy: usize) -> i32 {
    let mut h = offset;
    for row in 0..=iy {
        h += data[row * 65] as i8 as i32;
    }
    for col in 1..=ix {
        h += data[iy * 65 + col] as i8 as i32;
    }
    h
}

#[test]
fn bytes_stand_for_signed_steps() {
    assert_eq!(delta_from_byte(0), 0);
    assert_eq!(delta_from_byte(1), 1);
    assert_eq!(delta_from_byte(127), 127);
    assert_eq!(delta_from_byte(128), -128);
    assert_eq!(delta_from_byte(255), -1);
    assert_eq!(delta_to_byte(0), 0);
    assert_eq!(delta_to_byte(127), 127);
    assert_eq!(delta_to_byte(-128), 128);
    assert_eq!(delta_to_byte(-1), 255);
    for b in 0..=255u8 {
        assert_eq!(delta_to_byte(delta_from_byte(b)), b);
    }
}

#[test]
fn flat_field_decodes_to_zero_and_encodes_to_zero() {
    let mut world = OpenmwWorld::new();
    let data = vec![0u8; 4225];
    assert_eq!(decode_landscape(&mut world, [0, 0], 0, &data), Ok(()));
    for y in 0..=64 {
        for x in 0..=64 {
            assert_eq!(world.get_elevation([x, y]), 0);
            assert_eq!(world.get_elevation_canonical([x, y]), 0);
        }
    }
    let (offset, encoded) = encode_landscape(&world, [0, 0]).unwrap();
    assert_eq!(offset, 0);
    assert_eq!(encoded, vec![0u8; 4225]);
}

#[test]
fn decode_adds_up_the_deltas() {
    let mut world = OpenmwWorld::new();
    let mut data = vec![0u8; 4225];
    data[0] = 1;
    data[1] = 2;
    data[2] = 255;
    data[65] = 253;
    data[66] = 10;
    assert_eq!(decode_landscape(&mut world, [0, 0], 100, &data), Ok(()));
    assert_eq!(world.get_elevation_canonical([0, 0]), 101);
    assert_eq!(world.get_elevation_canonical([1, 0]), 103);
    assert_eq!(world.get_elevation_canonical([2, 0]), 102);
    assert_eq!(world.get_elevation_canonical([64, 0]), 102);
    assert_eq!(world.get_elevation_canonical([0, 1]), 98);
    assert_eq!(world.get_elevation_canonical([1, 1]), 108);
    assert_eq!(world.get_elevation_canonical([0, 2]), 98);
    assert_eq!(world.get_elevation_canonical([0, 64]), 98);
    assert_eq!(world.get_elevation_canonical([64, 64]), 98);
    assert_eq!(world.get_elevation([1, 1]), 108 * 16);
}

#[test]
fn decode_places_the_fragment_by_its_cell() {
    let mut world = OpenmwWorld::new();
    let data = deltas(7);
    assert_eq!(decode_landscape(&mut world, [-2, 3], -50, &data), Ok(()));
    for iy in [0usize, 1, 31, 63, 64] {
        for ix in [0usize, 1, 32, 63, 64] {
            assert_eq!(
                world.get_elevation_canonical([-128 + ix as i32, 192 + iy as i32]),
                height(-50, &data, ix, iy)
            );
        }
    }
    assert_eq!(world.get_elevation_canonical([-129, 192]), 0);
    assert_eq!(world.get_elevation_canonical([-128, 191]), 0);
    assert_eq!(world.get_elevation_canonical([-63, 192]), 0);
    assert_eq!(world.get_elevation_canonical([-128, 257]), 0);
}

#[test]
fn decode_refuses_a_short_fragment() {
    let mut world = OpenmwWorld::new();
    world.set_elevation_canonical([0, 0], 42);
    let data = vec![1u8; 4224];
    assert_eq!(
        decode_landscape(&mut world, [0, 0], 0, &data),
        Err(LandscapeError::WrongLength { expected: 4225, actual: 4224 })
    );
    assert_eq!(world.get_elevation_canonical([0, 0]), 42);
    assert_eq!(world.get_elevation_canonical([1, 0]), 0);
}

#[test]
fn decode_refuses_a_long_or_empty_fragment() {
    let mut world = OpenmwWorld::new();
    assert_eq!(
        decode_landscape(&mut world, [0, 0], 0, &vec![0u8; 4226]),
        Err(LandscapeError::WrongLength { expected: 4225, actual: 4226 })
    );
    assert_eq!(
        decode_landscape(&mut world, [0, 0], 0, &[]),
        Err(LandscapeError::WrongLength { expected: 4225, actual: 0 })
    );
}

#[test]
fn round_trip_gives_the_fragment_back() {
    let mut data = deltas(1);
    data[0] = 0;
    let mut world = OpenmwWorld::new();
    assert_eq!(decode_landscape(&mut world, [4, -4], 777, &data), Ok(()));
    let (offset, encoded) = encode_landscape(&world, [4, -4]).unwrap();
    assert_eq!(offset, 777);
    assert_eq!(encoded, data);
}

#[test]
fn round_trip_moves_the_first_delta_into_the_offset() {
    let mut data = deltas(2);
    data[0] = 250;
    let mut world = OpenmwWorld::new();
    assert_eq!(decode_landscape(&mut world, [0, 0], 10, &data), Ok(()));
    let (offset, encoded) = encode_landscape(&world, [0, 0]).unwrap();
    assert_eq!(offset, 4);
    assert_eq!(encoded[0], 0);
    assert_eq!(&encoded[1..], &data[1..]);
}

#[test]
fn round_trip_at_the_ends_of_the_accepted_range() {
    let minus = vec![128u8; 4225];
    let mut world = OpenmwWorld::new();
    assert_eq!(decode_landscape(&mut world, [-33554432, -33554432], -2147467136, &minus), Ok(()));
    assert_eq!(world.get_elevation_canonical([i32::MIN + 64, i32::MIN + 64]), i32::MIN);
    let plus = vec![127u8; 4225];
    let mut world = OpenmwWorld::new();
    assert_eq!(decode_landscape(&mut world, [33554430, 33554430], 2147467264, &plus), Ok(()));
    assert_eq!(world.get_elevation_canonical([2147483584, 2147483584]), i32::MAX);
    let (offset, encoded) = encode_landscape(&world, [33554430, 33554430]).unwrap();
    assert_eq!(offset, 2147467264 + 127);
    assert_eq!(encoded[0], 0);
    assert_eq!(&encoded[1..], &plus[1..]);
}

#[test]
fn encode_of_an_empty_world_is_flat() {
    let world = OpenmwWorld::new();
    let (offset, encoded) = encode_landscape(&world, [12, -7]).unwrap();
    assert_eq!(offset, 0);
    assert_eq!(encoded, vec![0u8; 4225]);
}

#[test]
fn encode_takes_steps_along_rows_and_between_row_starts() {
    let mut world = OpenmwWorld::new();
    world.set_elevation_canonical([0, 0], 5);
    world.set_elevation_canonical([1, 0], 7);
    world.set_elevation_canonical([0, 1], 3);
    let (offset, encoded) = encode_landscape(&world, [0, 0]).unwrap();
    assert_eq!(offset, 5);
    assert_eq!(encoded.len(), 4225);
    assert_eq!(encoded[0], 0);
    assert_eq!(encoded[1], 2);
    assert_eq!(encoded[2], 249);
    assert_eq!(encoded[3], 0);
    assert_eq!(encoded[65], 254);
    assert_eq!(encoded[66], 253);
    assert_eq!(encoded[130], 253);
}

#[test]
fn encode_refuses_a_jump_of_200() {
    let mut world = OpenmwWorld::new();
    assert_eq!(decode_landscape(&mut world, [0, 0], 0, &vec![0u8; 4225]), Ok(()));
    world.set_elevation_canonical([10, 10], 200);
    assert_eq!(
        encode_landscape(&world, [0, 0]),
        Err(LandscapeError::GradientTooLarge { delta: 200, min: -128, max: 127 })
    );
}

#[test]
fn encode_refuses_a_drop_of_200() {
    let mut world = OpenmwWorld::new();
    world.set_elevation_canonical([64, 64], -200);
    assert_eq!(
        encode_landscape(&world, [0, 0]),
        Err(LandscapeError::GradientTooLarge { delta: -200, min: -128, max: 127 })
    );
}

#[test]
fn encode_reports_the_first_steep_step() {
    let mut world = OpenmwWorld::new();
    world.set_elevation_canonical([5, 3], 1000);
    world.set_elevation_canonical([2, 1], -300);
    assert_eq!(
        encode_landscape(&world, [0, 0]),
        Err(LandscapeError::GradientTooLarge { delta: -300, min: -128, max: 127 })
    );
}

#[test]
fn encode_accepts_the_largest_steps() {
    let mut world = OpenmwWorld::new();
    world.set_elevation_canonical([1, 0], 127);
    world.set_elevation_canonical([2, 0], -1);
    world.set_elevation_canonical([3, 0], 0);
    let (_, encoded) = encode_landscape(&world, [0, 0]).unwrap();
    assert_eq!(encoded[1], 127);
    assert_eq!(encoded[2], 128);
    assert_eq!(encoded[3], 1);
    world.set_elevation_canonical([1, 0], 128);
    assert_eq!(
        encode_landscape(&world, [0, 0]),
        Err(LandscapeError::GradientTooLarge { delta: 128, min: -128, max: 127 })
    );
    world.set_elevation_canonical([1, 0], -129);
    assert_eq!(
        encode_landscape(&world, [0, 0]),
        Err(LandscapeError::GradientTooLarge { delta: -129, min: -128, max: 127 })
    );
}

#[test]
fn neighbours_read_the_same_edge() {
    let mut world = OpenmwWorld::new();
    let mut west = deltas(11);
    let mut east = deltas(12);
    for d in west.iter_mut().chain(east.iter_mut()) {
        *d = (*d % 64).wrapping_sub(32);
    }
    assert_eq!(decode_landscape(&mut world, [0, 0], 100, &west), Ok(()));
    assert_eq!(decode_landscape(&mut world, [1, 0], -100, &east), Ok(()));
    for iy in 0..=64usize {
        assert_eq!(world.get_elevation_canonical([64, iy as i32]), height(-100, &east, 0, iy));
    }
    assert_eq!(world.get_elevation_canonical([63, 0]), height(100, &west, 63, 0));
}

#[test]
fn what_the_encoder_gives_comes_back_unchanged() {
    let mut world = OpenmwWorld::new();
    let mut data = deltas(21);
    for d in data.iter_mut() {
        *d = (*d % 32).wrapping_sub(16);
    }
    assert_eq!(decode_landscape(&mut world, [0, 0], 3, &data), Ok(()));
    assert_eq!(decode_landscape(&mut world, [-1, -1], 9, &vec![0u8; 4225]), Ok(()));
    let (offset, encoded) = encode_landscape(&world, [0, 0]).unwrap();
    let mut other = OpenmwWorld::new();
    other.set_elevation_canonical([7, 7], 90);
    assert_eq!(decode_landscape(&mut other, [0, 0], offset, &encoded), Ok(()));
    assert_eq!(encode_landscape(&other, [0, 0]), Ok((offset, encoded)));
}
