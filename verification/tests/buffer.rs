use cdis_assemble::buffer::{
    read_from_buffer, read_value_with_length, write_value_with_length, BitBuffer,
};

#[test]
fn write_then_read_straddles_bytes() {
    let mut buf = BitBuffer::new();
    let next = write_value_with_length(&mut buf, 5, 13, 0x1ABC);
    assert_eq!(next, 18);
    let bytes = buf.as_raw_slice();
    assert_eq!(bytes[0], 0b0000_0110);
    assert_eq!(bytes[1], 0b1010_1111);
    assert_eq!(bytes[2], 0b0000_0000);
    let (rest, value) = read_value_with_length((bytes, 5), 13).unwrap();
    assert_eq!(value, 0x1ABC);
    assert_eq!(rest.1, 18);
}

#[test]
fn fresh_buffer_is_all_zero() {
    let buf = BitBuffer::new();
    assert_eq!(buf.as_raw_slice().len(), 1500);
    assert!(buf.as_raw_slice().iter().all(|byte| *byte == 0));
    assert_eq!(read_from_buffer(&buf, 11968, 32), (12000, 0));
}

#[test]
fn write_keeps_the_bits_around_it() {
    let mut buf = BitBuffer::new();
    write_value_with_length(&mut buf, 0, 32, u32::MAX);
    let next = write_value_with_length(&mut buf, 10, 3, 0b000);
    assert_eq!(next, 13);
    assert_eq!(buf.as_raw_slice()[..5], [0xff, 0b1100_0111, 0xff, 0xff, 0x00]);
    // only the low bits of the value are written
    let next = write_value_with_length(&mut buf, 32, 4, 0xabcd);
    assert_eq!(next, 36);
    assert_eq!(buf.as_raw_slice()[4], 0xd0);
    assert_eq!(read_from_buffer(&buf, 32, 4), (36, 0xd));
    assert_eq!(read_from_buffer(&buf, 8, 8), (16, 0b1100_0111));
}

#[test]
fn last_bit_of_the_buffer_can_be_written_and_read() {
    let mut buf = BitBuffer::new();
    assert_eq!(write_value_with_length(&mut buf, 11999, 1, 1), 12000);
    assert_eq!(buf.as_raw_slice()[1499], 1);
    assert_eq!(read_from_buffer(&buf, 11999, 1), (12000, 1));
    let bytes = buf.as_raw_slice();
    assert!(read_value_with_length((bytes, 11999), 2).is_err());
    assert!(read_value_with_length((bytes, 12000), 1).is_err());
}
