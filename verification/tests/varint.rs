use cdis_assemble::buffer::BitBuffer;
use cdis_assemble::codec::SerializeCdis;
use cdis_assemble::error::{CdisError, Family, ParseError};
use cdis_assemble::svint::{
    svint12, svint13, svint14, svint16, svint24, Svint12BitSize, Svint13BitSize, Svint14BitSize,
    Svint16BitSize, Svint24BitSize, SVINT12, SVINT13, SVINT14, SVINT16, SVINT24,
};
use cdis_assemble::uvint::{
    uvint16, uvint32, uvint8, Uvint16BitSize, Uvint32BitSize, Uvint8BitSize, UVINT16, UVINT32,
    UVINT8,
};

#[test]
fn uvint8_round_trips_over_its_whole_range() {
    for value in 0..=255i64 {
        let mut buf = BitBuffer::new();
        let next = UVINT8::encode(value, &mut buf, 3).unwrap();
        let (rest, decoded) = uvint8((buf.as_raw_slice(), 3)).unwrap();
        assert_eq!(decoded.value as i64, value);
        assert_eq!(rest.1, next);
        assert_eq!(decoded, UVINT8::from_value(value).unwrap());
    }
}

#[test]
fn uvint16_round_trips_at_tier_edges() {
    for value in [0i64, 1, 255, 256, 2047, 2048, 16383, 16384, 32767, 65535] {
        let mut buf = BitBuffer::new();
        let next = UVINT16::encode(value, &mut buf, 11).unwrap();
        let (rest, decoded) = uvint16((buf.as_raw_slice(), 11)).unwrap();
        assert_eq!(decoded.value as i64, value);
        assert_eq!(rest.1, next);
    }
}

#[test]
fn uvint32_round_trips_at_tier_edges() {
    for value in [0i64, 255, 256, 32767, 32768, 262143, 262144, 4294967295] {
        let mut buf = BitBuffer::new();
        let next = UVINT32::encode(value, &mut buf, 7).unwrap();
        let (rest, decoded) = uvint32((buf.as_raw_slice(), 7)).unwrap();
        assert_eq!(decoded.value as i64, value);
        assert_eq!(rest.1, next);
    }
}

#[test]
fn svint12_round_trips_over_its_whole_range() {
    for value in -2048..=2047i64 {
        let mut buf = BitBuffer::new();
        let next = SVINT12::encode(value, &mut buf, 5).unwrap();
        let (rest, decoded) = svint12((buf.as_raw_slice(), 5)).unwrap();
        assert_eq!(decoded.value as i64, value);
        assert_eq!(rest.1, next);
    }
}

#[test]
fn svint13_round_trips_at_tier_edges() {
    for value in [-4096i64, -513, -512, -65, -64, -17, -16, -1, 0, 15, 16, 63, 64, 511, 512, 4095] {
        let mut buf = BitBuffer::new();
        let next = SVINT13::encode(value, &mut buf, 0).unwrap();
        let (rest, decoded) = svint13((buf.as_raw_slice(), 0)).unwrap();
        assert_eq!(decoded.value as i64, value);
        assert_eq!(rest.1, next);
    }
}

#[test]
fn svint14_round_trips_at_tier_edges() {
    for value in [-8192i64, -1025, -1024, -257, -256, -65, -64, 0, 63, 64, 255, 256, 1023, 1024, 8191] {
        let mut buf = BitBuffer::new();
        let next = SVINT14::encode(value, &mut buf, 1).unwrap();
        let (rest, decoded) = svint14((buf.as_raw_slice(), 1)).unwrap();
        assert_eq!(decoded.value as i64, value);
        assert_eq!(rest.1, next);
    }
}

#[test]
fn svint16_round_trips_at_tier_edges() {
    for value in [-32768i64, -4097, -4096, -2049, -2048, -129, -128, 0, 127, 128, 2047, 2048, 4095, 4096, 32767] {
        let mut buf = BitBuffer::new();
        let next = SVINT16::encode(value, &mut buf, 2).unwrap();
        let (rest, decoded) = svint16((buf.as_raw_slice(), 2)).unwrap();
        assert_eq!(decoded.value as i64, value);
        assert_eq!(rest.1, next);
    }
}

#[test]
fn svint24_round_trips_at_tier_edges() {
    for value in [-8388608i64, -1048577, -1048576, -262145, -262144, -32769, -32768, 0, 32767, 32768, 262143, 262144, 1048575, 1048576, 8388607] {
        let mut buf = BitBuffer::new();
        let next = SVINT24::encode(value, &mut buf, 6).unwrap();
        let (rest, decoded) = svint24((buf.as_raw_slice(), 6)).unwrap();
        assert_eq!(decoded.value as i64, value);
        assert_eq!(rest.1, next);
    }
}

#[test]
fn encoder_picks_the_narrowest_tier() {
    assert_eq!(UVINT8::from_value(1).unwrap().bit_size, Uvint8BitSize::Four);
    assert_eq!(UVINT8::from_value(15).unwrap().bit_size, Uvint8BitSize::Four);
    assert_eq!(UVINT8::from_value(16).unwrap().bit_size, Uvint8BitSize::Eight);
    assert_eq!(UVINT16::from_value(255).unwrap().bit_size, Uvint16BitSize::Eight);
    assert_eq!(UVINT16::from_value(256).unwrap().bit_size, Uvint16BitSize::Eleven);
    assert_eq!(UVINT16::from_value(2048).unwrap().bit_size, Uvint16BitSize::Fourteen);
    assert_eq!(UVINT16::from_value(32767).unwrap().bit_size, Uvint16BitSize::Sixteen);
    assert_eq!(UVINT32::from_value(32768).unwrap().bit_size, Uvint32BitSize::Eighteen);
    assert_eq!(UVINT32::from_value(262144).unwrap().bit_size, Uvint32BitSize::ThirtyTwo);
    assert_eq!(SVINT12::from_value(-3).unwrap().bit_size, Svint12BitSize::Three);
    assert_eq!(SVINT12::from_value(-4).unwrap().bit_size, Svint12BitSize::Three);
    assert_eq!(SVINT12::from_value(-5).unwrap().bit_size, Svint12BitSize::Six);
    assert_eq!(SVINT12::from_value(4).unwrap().bit_size, Svint12BitSize::Six);
    assert_eq!(SVINT12::from_value(2047).unwrap().bit_size, Svint12BitSize::Twelve);
    assert_eq!(SVINT13::from_value(15).unwrap().bit_size, Svint13BitSize::Five);
    assert_eq!(SVINT14::from_value(-65).unwrap().bit_size, Svint14BitSize::Nine);
    assert_eq!(SVINT16::from_value(2048).unwrap().bit_size, Svint16BitSize::Thirteen);
    assert_eq!(SVINT24::from_value(-32769).unwrap().bit_size, Svint24BitSize::Nineteen);
}

#[test]
fn uvint8_value_one_takes_five_bits() {
    let mut buf = BitBuffer::new();
    let next = UVINT8::encode(1, &mut buf, 0).unwrap();
    assert_eq!(next, 5);
    assert_eq!(buf.as_raw_slice()[0], 0b0_0001_000);
}

#[test]
fn uvint16_value_32767_takes_the_widest_tier() {
    let mut buf = BitBuffer::new();
    let next = UVINT16::encode(32767, &mut buf, 0).unwrap();
    assert_eq!(next, 18);
    assert_eq!(buf.as_raw_slice()[..3], [0b11011111, 0b11111111, 0b11000000]);
}

#[test]
fn negative_value_is_written_as_its_distance_from_the_tier_minimum() {
    // -3 in the 12-bit tier: sign 1, then -3 - (-2048) = 2045 in 11 bits.
    let mut buf = BitBuffer::new();
    let next = SVINT12::new(Svint12BitSize::Twelve, -3).serialize(&mut buf, 0);
    assert_eq!(next, 14);
    assert_eq!(buf.as_raw_slice()[..2], [0b11_1_11111, 0b111101_00]);
    // -3 in its narrowest tier: sign 1, then -3 - (-4) = 1 in 2 bits.
    let mut buf = BitBuffer::new();
    let next = SVINT12::encode(-3, &mut buf, 0).unwrap();
    assert_eq!(next, 5);
    assert_eq!(buf.as_raw_slice()[0], 0b00_1_01_000);
    // 2047: sign 0, then the value itself.
    let mut buf = BitBuffer::new();
    SVINT12::encode(2047, &mut buf, 0).unwrap();
    assert_eq!(buf.as_raw_slice()[..2], [0b11_0_11111, 0b111111_00]);
}

#[test]
fn largest_value_of_each_family_encodes_and_one_beyond_does_not() {
    let mut buf = BitBuffer::new();
    assert!(UVINT8::encode(255, &mut buf, 0).is_ok());
    assert_eq!(
        UVINT8::encode(256, &mut buf, 0),
        Err(CdisError::ValueOutOfRange { family: Family::Uvint8, value: 256 })
    );
    assert!(UVINT16::encode(65535, &mut buf, 0).is_ok());
    assert_eq!(
        UVINT16::encode(65536, &mut buf, 0),
        Err(CdisError::ValueOutOfRange { family: Family::Uvint16, value: 65536 })
    );
    assert!(UVINT32::encode(4294967295, &mut buf, 0).is_ok());
    assert_eq!(
        UVINT32::encode(4294967296, &mut buf, 0),
        Err(CdisError::ValueOutOfRange { family: Family::Uvint32, value: 4294967296 })
    );
    assert_eq!(
        UVINT8::encode(-1, &mut buf, 0),
        Err(CdisError::ValueOutOfRange { family: Family::Uvint8, value: -1 })
    );
    assert!(SVINT12::encode(2047, &mut buf, 0).is_ok());
    assert_eq!(
        SVINT12::encode(2048, &mut buf, 0),
        Err(CdisError::ValueOutOfRange { family: Family::Svint12, value: 2048 })
    );
    assert!(SVINT13::encode(4095, &mut buf, 0).is_ok());
    assert_eq!(
        SVINT13::encode(4096, &mut buf, 0),
        Err(CdisError::ValueOutOfRange { family: Family::Svint13, value: 4096 })
    );
    assert!(SVINT14::encode(8191, &mut buf, 0).is_ok());
    assert_eq!(
        SVINT14::encode(8192, &mut buf, 0),
        Err(CdisError::ValueOutOfRange { family: Family::Svint14, value: 8192 })
    );
    assert!(SVINT16::encode(32767, &mut buf, 0).is_ok());
    assert_eq!(
        SVINT16::encode(32768, &mut buf, 0),
        Err(CdisError::ValueOutOfRange { family: Family::Svint16, value: 32768 })
    );
    assert!(SVINT24::encode(8388607, &mut buf, 0).is_ok());
    assert_eq!(
        SVINT24::encode(8388608, &mut buf, 0),
        Err(CdisError::ValueOutOfRange { family: Family::Svint24, value: 8388608 })
    );
}

#[test]
fn least_value_of_each_signed_family_round_trips() {
    let mut buf = BitBuffer::new();
    let next = SVINT12::encode(-2048, &mut buf, 0).unwrap();
    let (rest, v) = svint12((buf.as_raw_slice(), 0)).unwrap();
    assert_eq!((v.value, rest.1), (-2048, next));
    assert_eq!(
        SVINT12::encode(-2049, &mut buf, 0),
        Err(CdisError::ValueOutOfRange { family: Family::Svint12, value: -2049 })
    );
    let next = SVINT13::encode(-4096, &mut buf, 100).unwrap();
    let (rest, v) = svint13((buf.as_raw_slice(), 100)).unwrap();
    assert_eq!((v.value, rest.1), (-4096, next));
    let next = SVINT14::encode(-8192, &mut buf, 200).unwrap();
    let (rest, v) = svint14((buf.as_raw_slice(), 200)).unwrap();
    assert_eq!((v.value, rest.1), (-8192, next));
    let next = SVINT16::encode(-32768, &mut buf, 300).unwrap();
    let (rest, v) = svint16((buf.as_raw_slice(), 300)).unwrap();
    assert_eq!((v.value, rest.1), (-32768, next));
    let next = SVINT24::encode(-8388608, &mut buf, 400).unwrap();
    let (rest, v) = svint24((buf.as_raw_slice(), 400)).unwrap();
    assert_eq!((v.value, rest.1), (-8388608, next));
}

#[test]
fn decoder_takes_a_tier_wider_than_needed() {
    // UVINT16 value 1 in the 16-bit tier: flag 11, then sixteen bits.
    let input: [u8; 3] = [0b11_000000, 0b00000000, 0b01_000000];
    let (rest, v) = uvint16((&input, 0)).unwrap();
    assert_eq!(v, UVINT16::new(Uvint16BitSize::Sixteen, 1));
    assert_eq!(rest.1, 18);
    assert!(v.is_valid());
}

#[test]
fn flag_code_outside_the_table_is_refused() {
    assert_eq!(Uvint8BitSize::from_flag(1), Ok(Uvint8BitSize::Eight));
    assert_eq!(
        Uvint8BitSize::from_flag(2),
        Err(ParseError::UnknownTierFlag { family: Family::Uvint8, flag: 2 })
    );
    assert_eq!(Uvint16BitSize::from_flag(3), Ok(Uvint16BitSize::Sixteen));
    assert_eq!(
        Uvint16BitSize::from_flag(4),
        Err(ParseError::UnknownTierFlag { family: Family::Uvint16, flag: 4 })
    );
    assert_eq!(
        Svint24BitSize::from_flag(9),
        Err(ParseError::UnknownTierFlag { family: Family::Svint24, flag: 9 })
    );
}

#[test]
fn input_that_ends_early_is_refused() {
    let input: [u8; 1] = [0b1000_0000];
    assert_eq!(uvint8((&input, 0)).unwrap_err(), ParseError::EndOfInput);
    assert_eq!(uvint8((&input, 8)).unwrap_err(), ParseError::EndOfInput);
    assert_eq!(uvint8((&input, 4)).unwrap_err(), ParseError::EndOfInput);
    assert_eq!(uvint8((&input, 3)).unwrap().0 .1, 8);
    assert_eq!(uvint8((&input, usize::MAX)).unwrap_err(), ParseError::EndOfInput);
}

#[test]
fn encode_refuses_to_pass_the_end_of_the_buffer() {
    let mut buf = BitBuffer::new();
    assert_eq!(UVINT8::encode(200, &mut buf, 11992), Err(CdisError::CapacityExceeded));
    assert_eq!(UVINT8::encode(200, &mut buf, 11991), Ok(12000));
    assert_eq!(UVINT8::encode(1, &mut buf, usize::MAX), Err(CdisError::CapacityExceeded));
    assert_eq!(buf.as_raw_slice()[1499], 200);
}

#[test]
fn value_that_overflows_its_tier_is_not_valid() {
    assert!(UVINT8::new(Uvint8BitSize::Four, 15).is_valid());
    assert!(!UVINT8::new(Uvint8BitSize::Four, 16).is_valid());
    assert!(SVINT12::new(Svint12BitSize::Three, -4).is_valid());
    assert!(!SVINT12::new(Svint12BitSize::Three, 4).is_valid());
    assert_eq!(SVINT12::new(Svint12BitSize::Six, 4).bit_length(), 8);
    assert_eq!(SVINT12::new(Svint12BitSize::Six, 4).min_value(), -32);
    assert_eq!(SVINT12::new(Svint12BitSize::Six, 4).max_value(), 31);
}

#[test]
fn from_pairs_a_value_with_its_narrowest_tier() {
    assert_eq!(UVINT16::from(1), UVINT16::new(Uvint16BitSize::Eight, 1));
    assert_eq!(UVINT8::from(16), UVINT8::new(Uvint8BitSize::Eight, 16));
    assert_eq!(UVINT32::from(u32::MAX), UVINT32::new(Uvint32BitSize::ThirtyTwo, u32::MAX));
    assert_eq!(SVINT12::from(-4), SVINT12::new(Svint12BitSize::Three, -4));
    assert_eq!(SVINT16::from(i16::MIN), SVINT16::new(Svint16BitSize::Sixteen, i16::MIN));
    assert_eq!(SVINT24::from(65536), SVINT24::new(Svint24BitSize::Nineteen, 65536));
    // out of the family's range: the widest tier, and not valid
    assert_eq!(SVINT12::from(2048), SVINT12::new(Svint12BitSize::Twelve, 2048));
    assert!(!SVINT12::from(2048).is_valid());
    assert!(SVINT12::from(2047).is_valid());
}
