use movement::dynamixel::Parameter;

#[test]
fn unsigned_little_endian_bytes() {
    assert_eq!(Parameter::unsigned(500, 2).as_bytes(), vec![0xF4, 0x01]);
    assert_eq!(Parameter::unsigned(1, 1).as_bytes(), vec![0x01]);
    assert_eq!(Parameter::unsigned(0x01020304, 4).as_bytes(), vec![0x04, 0x03, 0x02, 0x01]);
}

#[test]
fn signed_two_complement_bytes() {
    assert_eq!(Parameter::signed(-1, 2).as_bytes(), vec![0xFF, 0xFF]);
    assert_eq!(Parameter::signed(-2, 1).as_bytes(), vec![0xFE]);
    assert_eq!(Parameter::signed(500, 2).as_bytes(), vec![0xF4, 0x01]);
}

#[test]
fn oversized_value_is_truncated() {
    // A value wider than its declared byte length loses its upper bytes.
    assert_eq!(Parameter::unsigned(0x1234, 1).as_bytes(), vec![0x34]);
}

#[test]
fn from_slice_concatenates_in_order() {
    let params = [
        Parameter::unsigned(0x1E, 1),
        Parameter::unsigned(500, 2),
        Parameter::signed(-1, 1),
    ];
    assert_eq!(Parameter::from_slice(&params), vec![0x1E, 0xF4, 0x01, 0xFF]);
}

#[test]
fn from_slice_of_nothing_is_empty() {
    assert_eq!(Parameter::from_slice(&[]), Vec::<u8>::new());
}
