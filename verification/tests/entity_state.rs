use cdis_assemble::buffer::BitBuffer;
use cdis_assemble::codec::SerializeCdis;
use cdis_assemble::entity_state::{
    decode_entity_state, encode_entity_state, entity_state_body, EntityState, Units, FPF_BIT_CAPABILITIES, FPF_BIT_FORCE_ID,
    FPF_BIT_MARKING,
};
use cdis_assemble::error::{CdisError, Field, ParseError};
use cdis_assemble::marking::{CharEncoding, EntityMarking};
use cdis_assemble::records::{
    AngularVelocity, DrParametersOther, EntityAppearance, EntityId, EntityType,
    LinearAcceleration, LinearVelocity, Orientation, WorldCoordinates,
};
use cdis_assemble::svint::{SVINT12, SVINT14};
use cdis_assemble::uvint::{UVINT16, UVINT32, UVINT8};

fn id() -> EntityId {
    EntityId::new(
        UVINT16::from_value(7).unwrap(),
        UVINT16::from_value(300).unwrap(),
        UVINT16::from_value(65535).unwrap(),
    )
}

fn marking() -> EntityMarking {
    let mut codes = [0u8; 15];
    codes[0] = 20;
    codes[1] = 1;
    codes[2] = 14;
    codes[3] = 11;
    EntityMarking::new(CharEncoding::SixBit, 4, codes)
}

fn bare() -> EntityState {
    EntityState {
        units: Units::Dekameter,
        full_update_flag: false,
        entity_id: id(),
        force_id: None,
        number_of_var_params: None,
        entity_type: None,
        alternate_entity_type: None,
        entity_linear_velocity: None,
        entity_location: None,
        entity_orientation: None,
        entity_appearance: None,
        dr_params_other: None,
        dr_params_entity_linear_acceleration: None,
        dr_params_entity_angular_velocity: None,
        entity_marking: None,
        capabilities: None,
    }
}

fn full() -> EntityState {
    EntityState {
        units: Units::Centimeter,
        full_update_flag: true,
        entity_id: id(),
        force_id: Some(UVINT8::from_value(1).unwrap()),
        number_of_var_params: Some(UVINT8::from_value(200).unwrap()),
        entity_type: Some(EntityType::new(1, 1, 153, 1, 2, 3, 4)),
        alternate_entity_type: Some(EntityType::new(1, 2, 225, 4, 3, 2, 1)),
        entity_linear_velocity: Some(LinearVelocity::new(10, -10, 0)),
        entity_location: Some(WorldCoordinates::new(52_000_000, -4_000_000, 120)),
        entity_orientation: Some(Orientation::new(-4096, 0, 4095)),
        entity_appearance: Some(EntityAppearance::new(0x8000_0001)),
        dr_params_other: Some(DrParametersOther::new(2, 1, 2, 3, 4)),
        dr_params_entity_linear_acceleration: Some(LinearAcceleration::new(
            SVINT14::from_value(1).unwrap(),
            SVINT14::from_value(-1).unwrap(),
            SVINT14::from_value(8191).unwrap(),
        )),
        dr_params_entity_angular_velocity: Some(AngularVelocity::new(
            SVINT12::from_value(-2048).unwrap(),
            SVINT12::from_value(0).unwrap(),
            SVINT12::from_value(5).unwrap(),
        )),
        entity_marking: Some(marking()),
        capabilities: Some(UVINT32::from_value(0x1_0000).unwrap()),
    }
}

fn round_trip(body: &EntityState, cursor: usize) -> (EntityState, usize, usize) {
    let mut buf = BitBuffer::new();
    let next = body.encode(&mut buf, cursor).unwrap();
    let (rest, decoded) = entity_state_body((buf.as_raw_slice(), cursor)).unwrap();
    (decoded, next, rest.1)
}

#[test]
fn body_with_only_id_and_marking() {
    let body = EntityState { entity_marking: Some(marking()), ..bare() };
    assert!(body.is_valid());
    assert_eq!(body.fields_present(), FPF_BIT_MARKING);
    let mut buf = BitBuffer::new();
    let next = body.encode(&mut buf, 0).unwrap();
    // header 15, id 10 + 13 + 18, marking 4 + 1 + 4 * 6
    assert_eq!(next, 15 + 41 + 29);
    assert_eq!(buf.as_raw_slice()[..2], [0b00000000, 0b00010_1_0_0]);
    let (rest, decoded) = entity_state_body((buf.as_raw_slice(), 0)).unwrap();
    assert_eq!(rest.1, next);
    assert!(decoded.force_id.is_none());
    assert!(decoded.number_of_var_params.is_none());
    assert!(decoded.entity_type.is_none());
    assert!(decoded.alternate_entity_type.is_none());
    assert!(decoded.entity_linear_velocity.is_none());
    assert!(decoded.entity_location.is_none());
    assert!(decoded.entity_orientation.is_none());
    assert!(decoded.entity_appearance.is_none());
    assert!(decoded.dr_params_other.is_none());
    assert!(decoded.dr_params_entity_linear_acceleration.is_none());
    assert!(decoded.dr_params_entity_angular_velocity.is_none());
    assert!(decoded.capabilities.is_none());
    assert_eq!(decoded.entity_marking, Some(marking()));
    assert_eq!(decoded.entity_id, id());
    assert_eq!(decoded.units, Units::Dekameter);
    assert!(!decoded.full_update_flag);
    assert_eq!(decoded, body);
}

#[test]
fn full_update_round_trips_with_every_field() {
    let body = full();
    assert!(body.is_valid());
    assert_eq!(body.fields_present(), 0x1fff);
    let (decoded, next, read_to) = round_trip(&body, 17);
    assert_eq!(decoded, body);
    assert_eq!(read_to, next);
    assert_eq!(next, 17 + body.bit_length());
}

#[test]
fn bare_body_round_trips() {
    let (decoded, next, read_to) = round_trip(&bare(), 3);
    assert_eq!(decoded, bare());
    assert_eq!((next, read_to), (3 + 56, 3 + 56));
}

#[test]
fn full_update_with_a_field_missing_is_refused() {
    let mut buf = BitBuffer::new();
    let body = EntityState { entity_orientation: None, capabilities: None, ..full() };
    assert!(!body.is_valid());
    assert_eq!(body.missing_field(), Some(Field::Orientation));
    assert_eq!(
        body.encode(&mut buf, 0),
        Err(CdisError::MissingRequiredField { field: Field::Orientation })
    );
    assert!(buf.as_raw_slice().iter().all(|byte| *byte == 0));
    let body = EntityState { force_id: None, ..full() };
    assert_eq!(
        body.encode(&mut buf, 0),
        Err(CdisError::MissingRequiredField { field: Field::ForceId })
    );
    assert_eq!(full().missing_field(), None);
}

#[test]
fn body_that_would_pass_the_end_of_the_buffer_is_refused() {
    let mut buf = BitBuffer::new();
    let body = full();
    let length = body.bit_length();
    assert_eq!(body.encode(&mut buf, 12000 - length + 1), Err(CdisError::CapacityExceeded));
    assert!(buf.as_raw_slice().iter().all(|byte| *byte == 0));
    assert_eq!(body.encode(&mut buf, 12000 - length), Ok(12000));
    let (rest, decoded) = entity_state_body((buf.as_raw_slice(), 12000 - length)).unwrap();
    assert_eq!(decoded, body);
    assert_eq!(rest.1, 12000);
}

#[test]
fn full_update_flag_overrides_a_clear_mask() {
    let mut buf = BitBuffer::new();
    let next = full().encode(&mut buf, 0).unwrap();
    let mut bytes = buf.as_raw_slice().to_vec();
    // clear all thirteen presence bits; the full-update flag stays set
    bytes[0] = 0;
    bytes[1] &= 0b0000_0111;
    let (rest, decoded) = entity_state_body((&bytes[..], 0)).unwrap();
    assert_eq!(decoded, full());
    assert_eq!(rest.1, next);
}

#[test]
fn field_is_present_exactly_when_its_bit_is_set() {
    let body = EntityState {
        force_id: Some(UVINT8::from_value(3).unwrap()),
        capabilities: Some(UVINT32::from_value(9).unwrap()),
        ..bare()
    };
    assert_eq!(body.fields_present(), FPF_BIT_FORCE_ID | FPF_BIT_CAPABILITIES);
    let (decoded, _, _) = round_trip(&body, 0);
    assert_eq!(decoded.force_id, body.force_id);
    assert_eq!(decoded.capabilities, body.capabilities);
    assert!(decoded.entity_marking.is_none());
}

#[test]
fn clearing_one_presence_bit_drops_that_field_alone() {
    let everything = EntityState { full_update_flag: false, ..full() };
    let without_location = EntityState { entity_location: None, ..everything };
    assert_eq!(without_location.fields_present(), everything.fields_present() & !0x0080);
    let (decoded, next, read_to) = round_trip(&without_location, 0);
    assert_eq!(read_to, next);
    assert!(decoded.entity_location.is_none());
    assert_eq!(decoded.force_id, everything.force_id);
    assert_eq!(decoded.number_of_var_params, everything.number_of_var_params);
    assert_eq!(decoded.entity_type, everything.entity_type);
    assert_eq!(decoded.alternate_entity_type, everything.alternate_entity_type);
    assert_eq!(decoded.entity_linear_velocity, everything.entity_linear_velocity);
    assert_eq!(decoded.entity_orientation, everything.entity_orientation);
    assert_eq!(decoded.entity_appearance, everything.entity_appearance);
    assert_eq!(decoded.dr_params_other, everything.dr_params_other);
    assert_eq!(
        decoded.dr_params_entity_linear_acceleration,
        everything.dr_params_entity_linear_acceleration
    );
    assert_eq!(
        decoded.dr_params_entity_angular_velocity,
        everything.dr_params_entity_angular_velocity
    );
    assert_eq!(decoded.entity_marking, everything.entity_marking);
    assert_eq!(decoded.capabilities, everything.capabilities);
}

#[test]
fn body_cut_short_names_the_field_that_failed() {
    let mut buf = BitBuffer::new();
    let body = EntityState { entity_marking: Some(marking()), ..bare() };
    let next = body.encode(&mut buf, 0).unwrap();
    assert_eq!(next, 85);
    let bytes = buf.as_raw_slice();
    assert_eq!(
        entity_state_body((&bytes[..10], 0)),
        Err(CdisError::MalformedBody { field: Field::Marking, cause: ParseError::EndOfInput })
    );
    assert_eq!(
        entity_state_body((&bytes[..3], 0)),
        Err(CdisError::MalformedBody { field: Field::EntityId, cause: ParseError::EndOfInput })
    );
    assert_eq!(
        entity_state_body((&bytes[..1], 0)),
        Err(CdisError::MalformedBody { field: Field::FieldsPresent, cause: ParseError::EndOfInput })
    );
    assert_eq!(
        entity_state_body((&bytes[..1], 0)).unwrap_err(),
        entity_state_body((&bytes[..0], 0)).unwrap_err()
    );
    let thirteen_bits_then_nothing: [u8; 2] = [0, 0];
    assert_eq!(
        entity_state_body((&thirteen_bits_then_nothing, 3)),
        Err(CdisError::MalformedBody { field: Field::Units, cause: ParseError::EndOfInput })
    );
    assert_eq!(
        entity_state_body((&thirteen_bits_then_nothing, 2)),
        Err(CdisError::MalformedBody { field: Field::FullUpdateFlag, cause: ParseError::EndOfInput })
    );
    assert!(entity_state_body((&bytes[..11], 0)).is_ok());
}

#[test]
fn body_with_a_value_that_overflows_its_tier_is_not_valid() {
    let body = EntityState { entity_type: Some(EntityType::new(16, 0, 0, 0, 0, 0, 0)), ..bare() };
    assert!(!body.is_valid());
    assert!(bare().is_valid());
}

#[test]
fn datagram_round_trips_through_a_fresh_buffer() {
    let body = full();
    let (buf, length) = encode_entity_state(&body).unwrap();
    assert_eq!(length, body.bit_length());
    let bytes = buf.as_raw_slice();
    assert_eq!(decode_entity_state(bytes), Ok((body, length)));
    assert_eq!(decode_entity_state(&bytes[..length.div_ceil(8)]), Ok((body, length)));
    let too_long = vec![0u8; 1501];
    assert_eq!(decode_entity_state(&too_long), Err(CdisError::CapacityExceeded));
    let incomplete = EntityState { entity_marking: None, ..full() };
    assert_eq!(
        encode_entity_state(&incomplete).map(|(_, length)| length),
        Err(CdisError::MissingRequiredField { field: Field::Marking })
    );
}

#[test]
fn units_flag_is_the_fourteenth_bit() {
    let mut buf = BitBuffer::new();
    EntityState { units: Units::Centimeter, ..bare() }.encode(&mut buf, 0).unwrap();
    assert_eq!(buf.as_raw_slice()[1] & 0b0000_0110, 0b0000_0000);
    EntityState { units: Units::Dekameter, ..bare() }.encode(&mut buf, 0).unwrap();
    assert_eq!(buf.as_raw_slice()[1] & 0b0000_0110, 0b0000_0100);
    assert_eq!(Units::from_flag(0), Units::Centimeter);
    assert_eq!(Units::from_flag(1), Units::Dekameter);
}
