use cdis_assemble::buffer::BitBuffer;
use cdis_assemble::codec::SerializeCdis;
use cdis_assemble::svint::{Svint12BitSize, SVINT12};
use cdis_assemble::uvint::{Uvint16BitSize, Uvint8BitSize, UVINT16, UVINT8};

const ONE_BYTE: usize = 1;
const TWO_BYTES: usize = 2;
const THREE_BYTES: usize = 3;

#[test]
fn serialize_uvint8_bit_flag_zero() {
    let mut buf: BitBuffer = BitBuffer::new();

    let input = UVINT8::new_scaled(Uvint8BitSize::Four, 1);
    let expected: [u8; ONE_BYTE] = [0b00001000];
    let _next_cursor = input.serialize(&mut buf, 0);

    assert_eq!(expected[0], buf.as_raw_slice()[0]);
}

#[test]
fn serialize_uvint8_bit_flag_one() {
    let mut buf: BitBuffer = BitBuffer::new();

    let input = UVINT8::new_scaled(Uvint8BitSize::Eight, 129);
    let expected: [u8; TWO_BYTES] = [0b11000000, 0b10000000];
    let _next_cursor = input.serialize(&mut buf, 0);

    assert_eq!(expected[..2], buf.as_raw_slice()[..2]);
}

#[test]
fn serialize_uvint16_bit_flag_zero() {
    let mut buf: BitBuffer = BitBuffer::new();

    let input = UVINT16::new(Uvint16BitSize::Eight, 1);
    let expected: [u8; TWO_BYTES] = [0b00000000, 0b01000000];
    let _next_cursor = input.serialize(&mut buf, 0);

    assert_eq!(expected[..TWO_BYTES], buf.as_raw_slice()[..TWO_BYTES]);
}

#[test]
fn serialize_uvint16_bit_flag_three() {
    let mut buf: BitBuffer = BitBuffer::new();

    let input = UVINT16::new(Uvint16BitSize::Sixteen, 32767);
    let expected: [u8; THREE_BYTES] = [0b11011111, 0b11111111, 0b11000000];
    let _next_cursor = input.serialize(&mut buf, 0);

    assert_eq!(expected[..THREE_BYTES], buf.as_raw_slice()[..THREE_BYTES]);
}

#[test]
fn serialize_svint12_bit_flag_zero_positive() {
    let mut buf: BitBuffer = BitBuffer::new();

    let input = SVINT12::new(Svint12BitSize::Three, 1);
    let expected: [u8; ONE_BYTE] = [0b00001000];
    let _next_cursor = input.serialize(&mut buf, 0);

    assert_eq!(expected[..ONE_BYTE], buf.as_raw_slice()[..ONE_BYTE]);
}

#[test]
fn serialize_svint12_bit_flag_zero_negative() {
    let mut buf: BitBuffer = BitBuffer::new();

    let input = SVINT12::new(Svint12BitSize::Three, -3);
    let expected: [u8; ONE_BYTE] = [0b00101000];
    let _next_cursor = input.serialize(&mut buf, 0);

    assert_eq!(expected[..ONE_BYTE], buf.as_raw_slice()[..ONE_BYTE]);
}

#[test]
fn serialize_svint12_bit_flag_three_positive() {
    let mut buf: BitBuffer = BitBuffer::new();

    let input = SVINT12::new(Svint12BitSize::Twelve, 2047);
    let expected: [u8; TWO_BYTES] = [0b11011111, 0b11111100];
    let _next_cursor = input.serialize(&mut buf, 0);

    assert_eq!(expected[..TWO_BYTES], buf.as_raw_slice()[..TWO_BYTES]);
}

#[test]
fn serialize_svint12_bit_flag_three_negative() {
    let mut buf: BitBuffer = BitBuffer::new();

    let input = SVINT12::new(Svint12BitSize::Twelve, -2047);
    let expected: [u8; TWO_BYTES] = [0b11100000, 0b00000100];
    let _next_cursor = input.serialize(&mut buf, 0);

    assert_eq!(expected[..TWO_BYTES], buf.as_raw_slice()[..TWO_BYTES]);
}
