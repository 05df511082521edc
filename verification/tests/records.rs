use cdis_assemble::buffer::BitBuffer;
use cdis_assemble::codec::SerializeCdis;
use cdis_assemble::error::ParseError;
use cdis_assemble::marking::{entity_marking, CharEncoding, EntityMarking};
use cdis_assemble::records::{
    angular_velocity, dr_parameters_other, entity_appearance, entity_identification, entity_type,
    linear_acceleration, linear_velocity, orientation, world_coordinates, AngularVelocity,
    DrParametersOther, EntityAppearance, EntityId, EntityType, LinearAcceleration, LinearVelocity,
    Orientation, WorldCoordinates,
};
use cdis_assemble::svint::{SVINT12, SVINT14};
use cdis_assemble::uvint::UVINT16;

fn marking_of(text: &[u8], char_encoding: CharEncoding) -> EntityMarking {
    let mut codes = [0u8; 15];
    codes[..text.len()].copy_from_slice(text);
    EntityMarking::new(char_encoding, text.len() as u8, codes)
}

#[test]
fn entity_id_is_three_uvint16() {
    let id = EntityId::new(
        UVINT16::from_value(1).unwrap(),
        UVINT16::from_value(1).unwrap(),
        UVINT16::from_value(1).unwrap(),
    );
    let mut buf = BitBuffer::new();
    let next = id.serialize(&mut buf, 0);
    assert_eq!(next, 30);
    assert_eq!(id.bit_length(), 30);
    assert_eq!(buf.as_raw_slice()[..4], [0b00000000, 0b01000000, 0b00010000, 0b00000100]);
    let (rest, decoded) = entity_identification((buf.as_raw_slice(), 0)).unwrap();
    assert_eq!(decoded, id);
    assert_eq!(rest.1, 30);
}

#[test]
fn entity_type_takes_49_bits() {
    let record = EntityType::new(1, 2, 153, 4, 5, 6, 7);
    assert!(record.is_valid());
    let mut buf = BitBuffer::new();
    let next = record.serialize(&mut buf, 4);
    assert_eq!(next, 53);
    assert_eq!(
        buf.as_raw_slice()[..7],
        [0b0000_0001, 0b0010_0100, 0b11001_000, 0b00100_000, 0b00101_000, 0b00110_000, 0b00111_000]
    );
    let (rest, decoded) = entity_type((buf.as_raw_slice(), 4)).unwrap();
    assert_eq!(decoded, record);
    assert_eq!(rest.1, 53);
    assert!(!EntityType::new(16, 0, 0, 0, 0, 0, 0).is_valid());
    assert!(!EntityType::new(0, 16, 0, 0, 0, 0, 0).is_valid());
    assert!(!EntityType::new(0, 0, 512, 0, 0, 0, 0).is_valid());
}

#[test]
fn fixed_records_round_trip() {
    let mut buf = BitBuffer::new();
    let velocity = LinearVelocity::new(-32768, 32767, -1);
    let location = WorldCoordinates::new(-1073741824, i32::MIN, -8388608);
    let attitude = Orientation::new(-4096, 4095, 0);
    let appearance = EntityAppearance::new(0xdead_beef);
    let other = DrParametersOther::new(4, 0xffff, 0x0123_4567, 0x89ab_cdef, u32::MAX);
    let c = velocity.serialize(&mut buf, 1);
    assert_eq!(c, 49);
    let c = location.serialize(&mut buf, c);
    assert_eq!(c, 136);
    let c = attitude.serialize(&mut buf, c);
    assert_eq!(c, 175);
    let c = appearance.serialize(&mut buf, c);
    assert_eq!(c, 207);
    let c = other.serialize(&mut buf, c);
    assert_eq!(c, 327);
    let bytes = buf.as_raw_slice();
    let (rest, v) = linear_velocity((bytes, 1)).unwrap();
    assert_eq!(v, velocity);
    let (rest, v) = world_coordinates(rest).unwrap();
    assert_eq!(v, location);
    let (rest, v) = orientation(rest).unwrap();
    assert_eq!(v, attitude);
    let (rest, v) = entity_appearance(rest).unwrap();
    assert_eq!(v, appearance);
    let (rest, v) = dr_parameters_other(rest).unwrap();
    assert_eq!(v, other);
    assert_eq!(rest.1, 327);
    assert!(!Orientation::new(4096, 0, 0).is_valid());
    assert!(!WorldCoordinates::new(1073741824, 0, 0).is_valid());
    assert!(!WorldCoordinates::new(0, 0, 8388608).is_valid());
}

#[test]
fn signed_fixed_field_is_sign_then_offset() {
    // -1 in 16 bits: sign 1, then -1 - (-32768) = 32767 in 15 bits.
    let mut buf = BitBuffer::new();
    LinearVelocity::new(-1, 1, 0).serialize(&mut buf, 0);
    assert_eq!(buf.as_raw_slice()[..6], [0xff, 0xff, 0x00, 0x01, 0x00, 0x00]);
}

#[test]
fn dead_reckoning_vectors_round_trip() {
    let mut buf = BitBuffer::new();
    let acceleration = LinearAcceleration::new(
        SVINT14::from_value(-8192).unwrap(),
        SVINT14::from_value(63).unwrap(),
        SVINT14::from_value(-65).unwrap(),
    );
    let turn = AngularVelocity::new(
        SVINT12::from_value(2047).unwrap(),
        SVINT12::from_value(-3).unwrap(),
        SVINT12::from_value(0).unwrap(),
    );
    let c = acceleration.serialize(&mut buf, 0);
    assert_eq!(c, 16 + 9 + 11);
    let c = turn.serialize(&mut buf, c);
    assert_eq!(c, 36 + 14 + 5 + 5);
    let (rest, v) = linear_acceleration((buf.as_raw_slice(), 0)).unwrap();
    assert_eq!(v, acceleration);
    let (rest, v) = angular_velocity(rest).unwrap();
    assert_eq!(v, turn);
    assert_eq!(rest.1, c);
}

#[test]
fn marking_is_length_encoding_and_codes() {
    let marking = marking_of(&[1, 2, 31], CharEncoding::FiveBit);
    assert!(marking.is_valid());
    assert_eq!(marking.bit_length(), 20);
    let mut buf = BitBuffer::new();
    let next = marking.serialize(&mut buf, 0);
    assert_eq!(next, 20);
    assert_eq!(buf.as_raw_slice()[..3], [0b0011_0_000, 0b01_00010_1, 0b1111_0000]);
    let (rest, decoded) = entity_marking((buf.as_raw_slice(), 0)).unwrap();
    assert_eq!(decoded, marking);
    assert_eq!(rest.1, 20);
}

#[test]
fn marking_of_six_bit_codes_round_trips() {
    let marking = marking_of(&[63, 0, 17, 42, 5, 6, 7, 8, 9, 10, 11, 12, 13, 14, 15], CharEncoding::SixBit);
    assert!(marking.is_valid());
    let mut buf = BitBuffer::new();
    let next = marking.serialize(&mut buf, 9);
    assert_eq!(next, 9 + 5 + 90);
    let (rest, decoded) = entity_marking((buf.as_raw_slice(), 9)).unwrap();
    assert_eq!(decoded, marking);
    assert_eq!(rest.1, next);
    let empty = marking_of(&[], CharEncoding::SixBit);
    let next = empty.serialize(&mut buf, 200);
    assert_eq!(next, 205);
    assert_eq!(entity_marking((buf.as_raw_slice(), 200)).unwrap().1, empty);
}

#[test]
fn marking_with_a_wide_code_or_a_stray_code_is_not_valid() {
    assert!(!marking_of(&[32], CharEncoding::FiveBit).is_valid());
    assert!(marking_of(&[32], CharEncoding::SixBit).is_valid());
    assert!(!marking_of(&[64], CharEncoding::SixBit).is_valid());
    let mut codes = [0u8; 15];
    codes[3] = 1;
    assert!(!EntityMarking::new(CharEncoding::SixBit, 3, codes).is_valid());
    assert!(EntityMarking::new(CharEncoding::SixBit, 4, codes).is_valid());
    assert!(!EntityMarking::new(CharEncoding::SixBit, 16, [0u8; 15]).is_valid());
}

#[test]
fn marking_cut_short_is_refused() {
    // length 3, five-bit codes, and only one code's worth of bits.
    let input: [u8; 2] = [0b0011_0_000, 0b01_000000];
    assert_eq!(entity_marking((&input, 0)).unwrap_err(), ParseError::EndOfInput);
    let input: [u8; 0] = [];
    assert_eq!(entity_marking((&input, 0)).unwrap_err(), ParseError::EndOfInput);
}
