use base64::Engine;
use spicy::encoding::Base64Fault;
use spicy::landscape::LandscapeError;
use spicy::records::{
    derive_landscapes, fragment_from_decoded, height_offset, ingest_landscapes,
    is_record_in_range, read_fragment, validate_records_together, LandscapeRecord,
};
use spicy::world_gen::world::OpenmwWorld;

fn text_of(bytes: &[u8]) -> String {
    base64::prelude::BASE64_STANDARD.encode(bytes)
}

fn bytes_of(text: &str) -> Vec<u8> {
    base64::prelude::BASE64_STANDARD.decode(text).unwrap()
}

fn record(grid: [i32; 2], offset: Option<i32>, bytes: &[u8]) -> LandscapeRecord {
    LandscapeRecord { grid, offset, data: text_of(bytes) }
}

fn slope(step_x: i8, step_y: i8) -> Vec<u8> {
    let mut data = vec![0u8; 4225];
    for iy in 0..65 {
        for ix in 0..65 {
            data[iy * 65 + ix] = if ix == 0 { step_y as u8 } else { step_x as u8 };
        }
    }
    data[0] = 0;
    data
}

fn height(offset: i32, data: &[u8], ix: usize, iy: usize) -> i32 {
    let mut h = offset;
    for row in 0..=iy {
        h += data[row * 65] as i8 as i32;
    }
    for col in 1..=ix {
        h += data[iy * 65 + col] as i8 as i32;
    }
    h
}

#[test]
fn offset_defaults_to_zero() {
    assert_eq!(height_offset(&record([0, 0], None, &[])), 0);
    assert_eq!(height_offset(&record([0, 0], Some(-12), &[])), -12);
}

#[test]
fn fragment_is_read_from_base64_text() {
    let bytes = slope(3, -2);
    let rec = record([0, 0], None, &bytes);
    assert_eq!(read_fragment(&rec), Ok(bytes));
}

#[test]
fn fragment_text_is_decoded_not_copied() {
    let rec = LandscapeRecord { grid: [0, 0], offset: None, data: "AAEC".repeat(1408) + "/w==" };
    let bytes = read_fragment(&rec).unwrap();
    assert_eq!(bytes.len(), 4225);
    assert_eq!(&bytes[..6], &[0, 1, 2, 0, 1, 2]);
    assert_eq!(bytes[4224], 255);
}

#[test]
fn fragment_of_wrong_length_is_refused() {
    let rec = record([0, 0], None, &vec![0u8; 4224]);
    assert_eq!(
        read_fragment(&rec),
        Err(LandscapeError::WrongLength { expected: 4225, actual: 4224 })
    );
    let rec = record([0, 0], None, &vec![0u8; 4229]);
    assert_eq!(
        read_fragment(&rec),
        Err(LandscapeError::WrongLength { expected: 4225, actual: 4229 })
    );
    let rec = record([0, 0], None, &[]);
    assert_eq!(read_fragment(&rec), Err(LandscapeError::WrongLength { expected: 4225, actual: 0 }));
}

#[test]
fn fragment_that_is_not_base64_is_refused() {
    let rec = LandscapeRecord { grid: [0, 0], offset: None, data: "AA*A".to_string() };
    assert_eq!(
        read_fragment(&rec),
        Err(LandscapeError::Undecodable(Base64Fault::InvalidByte(2, b'*')))
    );
    let rec = LandscapeRecord { grid: [0, 0], offset: None, data: "AAAAA".to_string() };
    assert_eq!(read_fragment(&rec), Err(LandscapeError::Undecodable(Base64Fault::InvalidLength(5))));
    let rec = LandscapeRecord { grid: [0, 0], offset: None, data: "AA".to_string() };
    assert_eq!(read_fragment(&rec), Err(LandscapeError::Undecodable(Base64Fault::InvalidPadding)));
    let rec = LandscapeRecord { grid: [0, 0], offset: None, data: "AB==".to_string() };
    assert_eq!(
        read_fragment(&rec),
        Err(LandscapeError::Undecodable(Base64Fault::InvalidLastSymbol(1, b'B')))
    );
}

#[test]
fn decoded_bytes_are_checked_for_length() {
    assert_eq!(fragment_from_decoded(Ok(vec![7u8; 4225])), Ok(vec![7u8; 4225]));
    assert_eq!(
        fragment_from_decoded(Ok(vec![7u8; 10])),
        Err(LandscapeError::WrongLength { expected: 4225, actual: 10 })
    );
    assert_eq!(
        fragment_from_decoded(Err(Base64Fault::InvalidPadding)),
        Err(LandscapeError::Undecodable(Base64Fault::InvalidPadding))
    );
}

#[test]
fn range_check_follows_the_limits() {
    let bytes = vec![0u8; 4225];
    assert!(is_record_in_range(&record([0, 0], None, &bytes)));
    assert!(is_record_in_range(&record([-33554432, 33554430], Some(-2147467136), &bytes)));
    assert!(is_record_in_range(&record([33554430, -33554432], Some(2147467264), &bytes)));
    assert!(!is_record_in_range(&record([33554431, 0], None, &bytes)));
    assert!(!is_record_in_range(&record([0, 33554431], None, &bytes)));
    assert!(!is_record_in_range(&record([-33554433, 0], None, &bytes)));
    assert!(!is_record_in_range(&record([0, -33554433], None, &bytes)));
    assert!(!is_record_in_range(&record([0, 0], Some(-2147467137), &bytes)));
    assert!(!is_record_in_range(&record([0, 0], Some(2147467265), &bytes)));
}

#[test]
fn no_records_nothing_to_do() {
    let mut records: Vec<LandscapeRecord> = Vec::new();
    assert_eq!(validate_records_together(&mut records), Ok(()));
    assert!(records.is_empty());
}

#[test]
fn flat_record_stays_flat() {
    let mut records = vec![record([0, 0], Some(0), &vec![0u8; 4225])];
    assert_eq!(validate_records_together(&mut records), Ok(()));
    assert_eq!(records.len(), 1);
    assert_eq!(records[0].grid, [0, 0]);
    assert_eq!(records[0].offset, Some(0));
    assert_eq!(bytes_of(&records[0].data), vec![0u8; 4225]);
}

#[test]
fn missing_offset_becomes_zero() {
    let mut records = vec![record([3, 3], None, &vec![0u8; 4225])];
    assert_eq!(validate_records_together(&mut records), Ok(()));
    assert_eq!(records[0].offset, Some(0));
}

#[test]
fn single_record_comes_back_unchanged() {
    let bytes = slope(2, -1);
    let mut records = vec![record([-5, 9], Some(1000), &bytes)];
    assert_eq!(validate_records_together(&mut records), Ok(()));
    assert_eq!(records[0].grid, [-5, 9]);
    assert_eq!(records[0].offset, Some(1000));
    assert_eq!(records[0].data, text_of(&bytes));
}

#[test]
fn first_delta_moves_into_the_offset() {
    let mut bytes = slope(1, 1);
    bytes[0] = 5;
    let mut records = vec![record([0, 0], Some(10), &bytes)];
    assert_eq!(validate_records_together(&mut records), Ok(()));
    assert_eq!(records[0].offset, Some(15));
    let out = bytes_of(&records[0].data);
    assert_eq!(out[0], 0);
    assert_eq!(&out[1..], &bytes[1..]);
}

#[test]
fn two_records_agree_on_their_shared_edge() {
    let west = slope(1, 0);
    let east = slope(0, 0);
    let mut records = vec![record([0, 0], Some(0), &west), record([1, 0], Some(50), &east)];
    assert_eq!(validate_records_together(&mut records), Ok(()));
    let west_out = bytes_of(&records[0].data);
    let east_out = bytes_of(&records[1].data);
    let west_offset = records[0].offset.unwrap();
    let east_offset = records[1].offset.unwrap();
    for iy in 0..=64 {
        assert_eq!(height(west_offset, &west_out, 64, iy), height(east_offset, &east_out, 0, iy));
        assert_eq!(height(west_offset, &west_out, 64, iy), 50);
        assert_eq!(height(west_offset, &west_out, 63, iy), 63);
    }
    assert_eq!(west_offset, 0);
    assert_eq!(east_offset, 50);
    assert_eq!(east_out, east);
    assert_eq!(west_out[64], (50 - 63) as i8 as u8);
}

#[test]
fn the_later_record_decides_a_shared_edge() {
    let west = slope(1, 0);
    let east = slope(0, 0);
    let mut records = vec![record([1, 0], Some(50), &east), record([0, 0], Some(0), &west)];
    assert_eq!(validate_records_together(&mut records), Ok(()));
    let east_out = bytes_of(&records[0].data);
    let west_out = bytes_of(&records[1].data);
    let east_offset = records[0].offset.unwrap();
    let west_offset = records[1].offset.unwrap();
    assert_eq!(records[0].grid, [1, 0]);
    assert_eq!(records[1].grid, [0, 0]);
    for iy in 0..=64 {
        assert_eq!(height(west_offset, &west_out, 64, iy), height(east_offset, &east_out, 0, iy));
        assert_eq!(height(east_offset, &east_out, 0, iy), 64);
        assert_eq!(height(east_offset, &east_out, 1, iy), 50);
    }
    assert_eq!(west_out, west);
    assert_eq!(east_offset, 64);
    assert_eq!(east_out[1], (50 - 64) as i8 as u8);
}

#[test]
fn records_above_each_other_agree_on_their_shared_edge() {
    let south = slope(0, 1);
    let north = slope(0, 0);
    let mut records = vec![record([2, -1], Some(0), &south), record([2, 0], Some(60), &north)];
    assert_eq!(validate_records_together(&mut records), Ok(()));
    let south_out = bytes_of(&records[0].data);
    let north_out = bytes_of(&records[1].data);
    let south_offset = records[0].offset.unwrap();
    let north_offset = records[1].offset.unwrap();
    for ix in 0..=64 {
        assert_eq!(
            height(south_offset, &south_out, ix, 64),
            height(north_offset, &north_out, ix, 0)
        );
        assert_eq!(height(south_offset, &south_out, ix, 64), 60);
        assert_eq!(height(south_offset, &south_out, ix, 63), 63);
    }
}

#[test]
fn disagreement_too_steep_to_store_fails() {
    let flat = vec![0u8; 4225];
    let mut records = vec![record([0, 0], Some(0), &flat), record([1, 0], Some(200), &flat)];
    let before = records.clone();
    assert_eq!(
        validate_records_together(&mut records),
        Err(LandscapeError::GradientTooLarge { delta: 200, min: -128, max: 127 })
    );
    assert_eq!(records.len(), 2);
    for (after, before) in records.iter().zip(before.iter()) {
        assert_eq!(after.grid, before.grid);
        assert_eq!(after.offset, before.offset);
        assert_eq!(after.data, before.data);
    }
}

#[test]
fn failure_in_a_later_record_leaves_earlier_records_alone() {
    let flat = vec![0u8; 4225];
    let mut steep = vec![0u8; 4225];
    steep[0] = 9;
    let mut records = vec![
        record([10, 10], None, &steep),
        record([0, 0], Some(0), &flat),
        record([0, 1], Some(-300), &flat),
    ];
    assert_eq!(
        validate_records_together(&mut records),
        Err(LandscapeError::GradientTooLarge { delta: -300, min: -128, max: 127 })
    );
    assert_eq!(records[0].offset, None);
    assert_eq!(records[0].data, text_of(&steep));
    assert_eq!(records[1].offset, Some(0));
    assert_eq!(records[2].offset, Some(-300));
}

#[test]
fn undecodable_record_stops_everything() {
    let flat = vec![0u8; 4225];
    let mut records = vec![
        record([0, 0], Some(1), &flat),
        LandscapeRecord { grid: [1, 0], offset: None, data: "!!!!".to_string() },
    ];
    assert_eq!(
        validate_records_together(&mut records),
        Err(LandscapeError::Undecodable(Base64Fault::InvalidByte(0, b'!')))
    );
    assert_eq!(records[0].offset, Some(1));
    assert_eq!(records[0].data, text_of(&flat));
    assert_eq!(records[1].data, "!!!!");
}

#[test]
fn wrong_length_is_reported_before_any_gradient() {
    let flat = vec![0u8; 4225];
    let mut records = vec![
        record([0, 0], Some(0), &flat),
        record([1, 0], Some(500), &flat),
        record([5, 5], None, &vec![0u8; 100]),
    ];
    assert_eq!(
        validate_records_together(&mut records),
        Err(LandscapeError::WrongLength { expected: 4225, actual: 100 })
    );
    assert_eq!(records[1].offset, Some(500));
}

#[test]
fn first_malformed_record_is_the_one_reported() {
    let mut records = vec![
        record([0, 0], None, &vec![0u8; 3]),
        LandscapeRecord { grid: [1, 0], offset: None, data: "****".to_string() },
    ];
    assert_eq!(
        validate_records_together(&mut records),
        Err(LandscapeError::WrongLength { expected: 4225, actual: 3 })
    );
}

#[test]
fn two_records_of_one_cell_both_get_the_later_heights() {
    let first = slope(1, 1);
    let second = slope(-1, 2);
    let mut records = vec![record([0, 0], Some(5), &first), record([0, 0], Some(-5), &second)];
    assert_eq!(validate_records_together(&mut records), Ok(()));
    assert_eq!(records[0].offset, Some(-5));
    assert_eq!(records[1].offset, Some(-5));
    assert_eq!(records[0].data, text_of(&second));
    assert_eq!(records[1].data, text_of(&second));
}

#[test]
fn ingest_pass_writes_in_the_order_of_the_list() {
    let mut world = OpenmwWorld::new();
    world.set_elevation_canonical([500, 500], 9);
    let records = vec![
        record([0, 0], Some(7), &slope(0, 0)),
        record([1, 0], None, &slope(1, 0)),
        record([0, 0], Some(-7), &slope(0, 0)),
    ];
    assert_eq!(ingest_landscapes(&mut world, &records), Ok(()));
    assert_eq!(world.get_elevation_canonical([0, 0]), -7);
    assert_eq!(world.get_elevation_canonical([64, 10]), -7);
    assert_eq!(world.get_elevation_canonical([65, 10]), 1);
    assert_eq!(world.get_elevation_canonical([128, 64]), 64);
    assert_eq!(world.get_elevation_canonical([129, 64]), 0);
    assert_eq!(world.get_elevation_canonical([500, 500]), 9);
}

#[test]
fn ingest_pass_stops_at_the_first_record_without_a_fragment() {
    let mut world = OpenmwWorld::new();
    let records = vec![
        record([0, 0], Some(7), &slope(0, 0)),
        record([1, 0], None, &vec![0u8; 4]),
        record([5, 5], Some(3), &slope(0, 0)),
    ];
    assert_eq!(
        ingest_landscapes(&mut world, &records),
        Err(LandscapeError::WrongLength { expected: 4225, actual: 4 })
    );
    assert_eq!(world.get_elevation_canonical([0, 0]), 7);
    assert_eq!(world.get_elevation_canonical([320, 320]), 0);
}

#[test]
fn derive_pass_reads_every_record_from_the_world() {
    let mut world = OpenmwWorld::new();
    world.set_elevation_canonical([0, 0], 4);
    world.set_elevation_canonical([64, 0], 6);
    let records = vec![
        LandscapeRecord { grid: [0, 0], offset: None, data: "ignored".to_string() },
        LandscapeRecord { grid: [1, 0], offset: Some(99), data: String::new() },
    ];
    let fresh = derive_landscapes(&world, &records).unwrap();
    assert_eq!(fresh.len(), 2);
    assert_eq!(fresh[0].grid, [0, 0]);
    assert_eq!(fresh[1].grid, [1, 0]);
    assert_eq!(fresh[0].offset, Some(4));
    assert_eq!(fresh[1].offset, Some(6));
    let west = bytes_of(&fresh[0].data);
    let east = bytes_of(&fresh[1].data);
    assert_eq!(west.len(), 4225);
    assert_eq!(west[1], 252);
    assert_eq!(west[64], 6);
    assert_eq!(west[65], 252);
    assert_eq!(east[0], 0);
    assert_eq!(east[1], 250);
    assert_eq!(east[65], 250);
    assert_eq!(records[0].data, "ignored");
    assert_eq!(world.get_elevation_canonical([64, 0]), 6);
}

#[test]
fn derive_pass_stops_at_the_first_record_that_is_too_steep() {
    let mut world = OpenmwWorld::new();
    world.set_elevation_canonical([64 + 3, 0], 1000);
    world.set_elevation_canonical([3, 0], -1000);
    let records = vec![
        record([5, 5], None, &[]),
        record([1, 0], None, &[]),
        record([0, 0], None, &[]),
    ];
    assert_eq!(
        derive_landscapes(&world, &records).map(|fresh| fresh.len()),
        Err(LandscapeError::GradientTooLarge { delta: 1000, min: -128, max: 127 })
    );
}
