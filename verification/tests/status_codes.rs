use movement::dynamixel::protocol_one::StatusType;

#[test]
fn encode_single_error() {
    assert_eq!(StatusType::get_error_code(&[StatusType::Instruction]), 0x02);
    assert_eq!(StatusType::get_error_code(&[StatusType::InputVoltage]), 0x80);
}

#[test]
fn encode_combined_errors() {
    let code = StatusType::get_error_code(&[StatusType::Overload, StatusType::Overheating]);
    assert_eq!(code, 0x24);
}

#[test]
fn encode_empty_is_success() {
    assert_eq!(StatusType::get_error_code(&[]), 0);
}

#[test]
fn success_masks_other_errors() {
    // The Success marker short-circuits the encoder to zero even when
    // error statuses stand beside it.
    let code = StatusType::get_error_code(&[StatusType::Overload, StatusType::Success]);
    assert_eq!(code, 0);
}

#[test]
fn decode_error_byte() {
    assert_eq!(
        StatusType::get_error_types(0x24),
        vec![StatusType::Overload, StatusType::Overheating]
    );
}

#[test]
fn decode_ignores_reserved_bit() {
    assert_eq!(StatusType::get_error_types(0x01), vec![]);
    assert_eq!(StatusType::get_error_types(0x00), vec![]);
}

#[test]
fn decode_every_error_bit() {
    assert_eq!(
        StatusType::get_error_types(0xFE),
        vec![
            StatusType::Instruction,
            StatusType::Overload,
            StatusType::Checksum,
            StatusType::Range,
            StatusType::Overheating,
            StatusType::AngleLimit,
            StatusType::InputVoltage,
        ]
    );
}

#[test]
fn decode_encode_roundtrip_clears_reserved_bit() {
    // Bit zero never decodes to a named status, so re-encoding returns the
    // byte with its lowest bit cleared; bytes without it round-trip
    // exactly.
    assert_eq!(StatusType::get_error_code(&StatusType::get_error_types(0x25)), 0x24);
    assert_eq!(StatusType::get_error_code(&StatusType::get_error_types(0x24)), 0x24);
    assert_eq!(StatusType::get_error_code(&StatusType::get_error_types(0xFE)), 0xFE);
    assert_eq!(StatusType::get_error_code(&StatusType::get_error_types(0xFF)), 0xFE);
}
