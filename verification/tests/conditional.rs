use cdis_assemble::conditional::field_present;

#[test]
fn field_present_u8_true() {
    let fields = 0b00000010u8;
    let mask = 0x2u8;

    assert!(field_present(fields, mask));
}

#[test]
fn field_present_u32_true() {
    let fields = 0x02004010u32;
    let mask = 0x10u32;

    assert!(field_present(fields, mask));
}

#[test]
fn field_present_u32_false() {
    let fields = 0x02004010u32;
    let mask = 0x01u32;

    assert!(!field_present(fields, mask));
}

#[test]
fn field_present_u8_false() {
    let fields = 0b00000100u8;
    let mask = 0x2u8;

    assert!(!field_present(fields, mask));
}
