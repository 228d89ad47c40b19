use movement::dynamixel::protocol_one::{
    bulk_read, ping, read, register_write, reset, sync_write, BulkReadError, BulkReadPacket,
    InstructionType, Packet, PacketType, ProtocolOneError, StatusType, SyncPacket,
    SyncWriteError,
};
use movement::dynamixel::{PacketManipulation, Parameter};

#[test]
fn ping_known_vector() {
    let packet = ping(1);
    assert_eq!(packet.generate().unwrap(), vec![0xFF, 0xFF, 0x01, 0x02, 0x01, 0xFB]);
}

#[test]
fn read_known_vector() {
    let packet = read(1, 43, 1);
    assert_eq!(packet.generate().unwrap(), vec![0xFF, 0xFF, 0x01, 0x04, 0x02, 0x2B, 0x01, 0xCC]);
}

#[test]
fn write_known_vector() {
    let packet = movement::dynamixel::protocol_one::write(1, 25, Parameter::unsigned(1, 1));
    assert_eq!(packet.generate().unwrap(), vec![0xFF, 0xFF, 0x01, 0x04, 0x03, 0x19, 0x01, 0xDD]);
}

#[test]
fn register_write_known_vector() {
    let packet = register_write(1, 30, Parameter::unsigned(500, 2));
    assert_eq!(
        packet.generate().unwrap(),
        vec![0xFF, 0xFF, 0x01, 0x05, 0x04, 0x1E, 0xF4, 0x01, 0xE2]
    );
}

#[test]
fn packet_new_write_vector() {
    let params = [Parameter::unsigned(25, 1), Parameter::unsigned(1, 1)];
    let packet = Packet::new(1, PacketType::Instruction(InstructionType::Write), &params);
    assert_eq!(packet.generate().unwrap(), vec![255, 255, 1, 4, 3, 25, 1, 221]);
}

#[test]
fn generate_is_deterministic() {
    let packet = register_write(7, 30, Parameter::unsigned(500, 2));
    assert_eq!(packet.generate().unwrap(), packet.generate().unwrap());
}

#[test]
fn sync_write_known_vector() {
    let packets = vec![
        SyncPacket { id: 0, data: Parameter::unsigned(0x010, 2), address: 0x1E },
        SyncPacket { id: 0, data: Parameter::unsigned(0x150, 2), address: 0x20 },
        SyncPacket { id: 1, data: Parameter::unsigned(0x220, 2), address: 0x1E },
        SyncPacket { id: 1, data: Parameter::unsigned(0x360, 2), address: 0x20 },
    ];
    let packet = sync_write(packets).unwrap();
    assert_eq!(
        packet.generate().unwrap(),
        vec![
            0xFF, 0xFF, 0xFE, 0x0E, 0x83, 0x1E, 0x04, 0x00, 0x10, 0x00, 0x50, 0x01, 0x01, 0x20,
            0x02, 0x60, 0x03, 0x67
        ]
    );
}

#[test]
fn sync_write_sorts_unordered_input() {
    let packets = vec![
        SyncPacket { id: 1, data: Parameter::unsigned(0x360, 2), address: 0x20 },
        SyncPacket { id: 0, data: Parameter::unsigned(0x150, 2), address: 0x20 },
        SyncPacket { id: 1, data: Parameter::unsigned(0x220, 2), address: 0x1E },
        SyncPacket { id: 0, data: Parameter::unsigned(0x010, 2), address: 0x1E },
    ];
    let packet = sync_write(packets).unwrap();
    assert_eq!(
        packet.generate().unwrap(),
        vec![
            0xFF, 0xFF, 0xFE, 0x0E, 0x83, 0x1E, 0x04, 0x00, 0x10, 0x00, 0x50, 0x01, 0x01, 0x20,
            0x02, 0x60, 0x03, 0x67
        ]
    );
}

#[test]
fn sync_write_rejects_empty_batch() {
    let result = sync_write(vec![]);
    assert!(matches!(
        result,
        Err(ProtocolOneError::SyncWrite(SyncWriteError::NoDynamixels))
    ));
}

#[test]
fn sync_write_rejects_inconsistent_size() {
    let packets = vec![
        SyncPacket { id: 0, data: Parameter::unsigned(0x10, 2), address: 0x1E },
        SyncPacket { id: 1, data: Parameter::unsigned(0x10, 1), address: 0x1E },
    ];
    assert!(matches!(
        sync_write(packets),
        Err(ProtocolOneError::SyncWrite(SyncWriteError::InconsistentSize))
    ));
}

#[test]
fn sync_write_rejects_inconsistent_length() {
    let packets = vec![
        SyncPacket { id: 0, data: Parameter::unsigned(0x10, 2), address: 0x1E },
        SyncPacket { id: 0, data: Parameter::unsigned(0x20, 2), address: 0x20 },
        SyncPacket { id: 1, data: Parameter::unsigned(0x30, 2), address: 0x1E },
    ];
    assert!(matches!(
        sync_write(packets),
        Err(ProtocolOneError::SyncWrite(SyncWriteError::InconsistentLength))
    ));
}

#[test]
fn bulk_read_known_vector() {
    let packets = vec![
        BulkReadPacket { id: 1, length: 2, address: 30 },
        BulkReadPacket { id: 2, length: 2, address: 36 },
    ];
    let packet = bulk_read(&packets).unwrap();
    assert_eq!(
        packet.generate().unwrap(),
        vec![0xFF, 0xFF, 0xFE, 0x09, 0x92, 0x00, 0x02, 0x01, 0x1E, 0x02, 0x02, 0x24, 0x1D]
    );
}

#[test]
fn sync_write_single_device_single_byte() {
    let packets = vec![SyncPacket { id: 3, data: Parameter::unsigned(0x42, 1), address: 0x19 }];
    let packet = sync_write(packets).unwrap();
    // Parameters: first address, one byte per device, device id, the data.
    assert_eq!(
        packet.generate().unwrap(),
        vec![0xFF, 0xFF, 0xFE, 0x06, 0x83, 0x19, 0x01, 0x03, 0x42, 0x19]
    );
}

#[test]
fn bulk_read_of_nothing_is_just_the_reserved_byte() {
    let packet = bulk_read(&[]).unwrap();
    assert_eq!(packet.generate().unwrap(), vec![0xFF, 0xFF, 0xFE, 0x03, 0x92, 0x00, 0x6C]);
}

#[test]
fn bulk_read_rejects_duplicate_id() {
    let packets = vec![
        BulkReadPacket { id: 1, length: 2, address: 30 },
        BulkReadPacket { id: 2, length: 2, address: 36 },
        BulkReadPacket { id: 1, length: 4, address: 40 },
    ];
    assert!(matches!(
        bulk_read(&packets),
        Err(ProtocolOneError::BulkRead(BulkReadError::SameID(1)))
    ));
}

#[test]
fn status_packet_is_receive_only() {
    let sent = ping(1);
    let reply = [0xFF, 0xFF, 0x01, 0x02, 0x00, 0xFC];
    let status = sent.from_buf(&reply).unwrap();
    assert!(matches!(status.generate(), Err(ProtocolOneError::ReceiveOnly)));
}

#[test]
fn parse_ping_reply() {
    let sent = ping(1);
    let reply = [0xFF, 0xFF, 0x01, 0x02, 0x00, 0xFC];
    let status = sent.from_buf(&reply).unwrap();
    assert_eq!(status.id, 1);
    assert!(status.parameters.is_empty());
    assert!(matches!(&status.packet_type, PacketType::Status(flags) if flags.is_empty()));
}

#[test]
fn parse_read_reply_little_endian() {
    let sent = read(1, 43, 2);
    let reply = [0xFF, 0xFF, 0x01, 0x04, 0x00, 0xF4, 0x01, 0x05];
    let status = sent.from_buf(&reply).unwrap();
    assert_eq!(status.id, 1);
    assert_eq!(status.parameters, vec![Parameter::unsigned(500, 2)]);
}

#[test]
fn parse_reply_with_error_flags() {
    let sent = ping(1);
    // Error byte 0x24: the overload and overheating bits.
    let reply = [0xFF, 0xFF, 0x01, 0x02, 0x24, 0xD8];
    let status = sent.from_buf(&reply).unwrap();
    assert!(matches!(
        &status.packet_type,
        PacketType::Status(flags)
            if *flags == vec![StatusType::Overload, StatusType::Overheating]
    ));
}

#[test]
fn parse_rejects_invalid_header() {
    let sent = ping(1);
    let reply = [0xFD, 0xFF, 0x01, 0x02, 0x00, 0xFC];
    assert!(matches!(
        sent.from_buf(&reply),
        Err(ProtocolOneError::InvalidHeader(h)) if h == vec![0xFD, 0xFF]
    ));
}

#[test]
fn parse_rejects_invalid_length() {
    let sent = ping(1);
    let reply = [0xFF, 0xFF, 0x01, 0x03, 0x00, 0x00, 0xFB];
    assert!(matches!(
        sent.from_buf(&reply),
        Err(ProtocolOneError::InvalidLength(7))
    ));
}

#[test]
fn parse_rejects_corrupted_checksum() {
    let sent = ping(1);
    let reply = [0xFF, 0xFF, 0x01, 0x02, 0x00, 0xAA];
    assert!(matches!(
        sent.from_buf(&reply),
        Err(ProtocolOneError::InvalidChecksum(0xAA))
    ));
}

#[test]
fn generate_parse_roundtrip_keeps_content() {
    let sent = movement::dynamixel::protocol_one::write(3, 25, Parameter::unsigned(1, 1));
    let frame = sent.generate().unwrap();
    let parsed = sent.from_buf(&frame).unwrap();
    assert_eq!(parsed.id, 3);
    assert_eq!(
        parsed.parameters,
        vec![Parameter::unsigned(25, 1), Parameter::unsigned(1, 1)]
    );
}

#[test]
fn generate_parse_roundtrip_reset() {
    let sent = reset(9);
    let frame = sent.generate().unwrap();
    let parsed = sent.from_buf(&frame).unwrap();
    assert_eq!(parsed.id, 9);
    assert!(parsed.parameters.is_empty());
}

#[test]
fn instruction_codes_match_table() {
    assert_eq!(InstructionType::Ping.code(), 0x01);
    assert_eq!(InstructionType::Read.code(), 0x02);
    assert_eq!(InstructionType::Write.code(), 0x03);
    assert_eq!(InstructionType::RegWrite.code(), 0x04);
    assert_eq!(InstructionType::Action.code(), 0x05);
    assert_eq!(InstructionType::Reset.code(), 0x06);
    assert_eq!(InstructionType::Reboot.code(), 0x07);
    assert_eq!(InstructionType::SyncWrite.code(), 0x83);
    assert_eq!(InstructionType::BulkRead.code(), 0x92);
}

#[test]
fn instruction_code_lookup_roundtrip() {
    let all = [
        InstructionType::Ping,
        InstructionType::Read,
        InstructionType::Write,
        InstructionType::RegWrite,
        InstructionType::Action,
        InstructionType::Reset,
        InstructionType::Reboot,
        InstructionType::SyncWrite,
        InstructionType::BulkRead,
    ];
    for instruction in all {
        assert_eq!(InstructionType::from_code(instruction.code()).unwrap(), instruction);
    }
}

#[test]
fn instruction_lookup_rejects_unknown_code() {
    assert!(matches!(
        InstructionType::from_code(0xC8),
        Err(ProtocolOneError::InvalidValue(0xC8))
    ));
}
