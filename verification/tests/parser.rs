use cdis_assemble::conditional::parse_field_when_present;
use cdis_assemble::error::ParseError;
use cdis_assemble::records::entity_identification;
use cdis_assemble::uvint::{uvint8, Uvint8BitSize};

#[test]
fn parse_when_present_entity_id() {
    let fields = 0b00000001u8;
    let mask = 0x01u8;
    let input: [u8; 4] = [0b00000000, 0b01000000, 0b00010000, 0b00000100];

    // entity_identification is in reality always present, but is an easy example for a test.
    let actual = parse_field_when_present(false, fields, mask, entity_identification)((&input, 0));

    assert!(actual.is_ok());
    let entity = actual.unwrap().1;
    assert!(entity.is_some());
    let entity = entity.unwrap();
    assert_eq!(1u16, entity.site.value);
    assert_eq!(1u16, entity.application.value);
    assert_eq!(1u16, entity.entity.value);
}

#[test]
fn parse_when_present_entity_id_not_present() {
    let fields = 0b00010000u8;
    let mask = 0x01u8;
    let input: [u8; 4] = [0b00000000, 0b01000000, 0b00010000, 0b00000100];

    // entity_identification is in reality always present, but is an easy example for a test.
    let actual = parse_field_when_present(false, fields, mask, entity_identification)((&input, 0));

    assert!(actual.is_ok());
    assert!(actual.unwrap().1.is_none())
}

#[test]
fn absent_field_leaves_the_cursor_where_it_was() {
    let input: [u8; 2] = [0xff, 0xff];
    let (rest, value) = parse_field_when_present(false, 0u16, 0x1000u16, uvint8)((&input, 3)).unwrap();
    assert!(value.is_none());
    assert_eq!(rest.1, 3);
    assert_eq!(rest.0, &input[..]);
}

#[test]
fn full_update_reads_the_field_whatever_the_mask() {
    let input: [u8; 2] = [0b1000_0001, 0b1000_0000];
    let (rest, value) = parse_field_when_present(true, 0u16, 0x1000u16, uvint8)((&input, 0)).unwrap();
    let value = value.unwrap();
    assert_eq!(value.bit_size, Uvint8BitSize::Eight);
    assert_eq!(value.value, 3);
    assert_eq!(rest.1, 9);
}

#[test]
fn present_field_passes_its_parsers_error_on() {
    let input: [u8; 1] = [0b1000_0000];
    let actual = parse_field_when_present(false, 0x1000u16, 0x1000u16, uvint8)((&input, 0));
    assert_eq!(actual.unwrap_err(), ParseError::EndOfInput);
}
