//! The first revision of the Dynamixel wire protocol: packet construction,
//! checksum derivation, serialization and status-reply parsing.
use vstd::prelude::*;

use crate::dynamixel::byte_sum;
use crate::dynamixel::params_bytes;
use crate::dynamixel::spec_checksum;
use crate::dynamixel::DynamixelID;
use crate::dynamixel::PacketManipulation;
use crate::dynamixel::Parameter;
use crate::dynamixel::ParameterType;

verus! {

/// Everything that can go wrong while building a packet or parsing a
/// status reply.
#[derive(Clone, Debug)]
pub enum ProtocolOneError {
    /// A device reported the given error byte.
    DynamixelError(u8),
    /// The given byte does not name an instruction.
    InvalidValue(u8),
    /// A reply had the given total length, which its instruction forbids.
    InvalidLength(usize),
    /// A reply began with the given bytes instead of the `0xFF 0xFF` header.
    InvalidHeader(Vec<u8>),
    /// A reply carried the given checksum byte, which does not match its
    /// contents.
    InvalidChecksum(u8),
    /// The given byte does not name an instruction a reply may answer.
    InvalidInstruction(u8),
    /// A status packet was asked to serialize itself; status packets are
    /// receive-only representations.
    ReceiveOnly,
    /// Building a synchronized write failed.
    SyncWrite(SyncWriteError),
    /// Building a bulk read failed.
    BulkRead(BulkReadError),
}

/// The ways a synchronized write request can be rejected.
#[derive(Clone, Copy, Debug)]
pub enum SyncWriteError {
    /// The request named no devices at all.
    NoDynamixels,
    /// Two entries declared different data widths.
    InconsistentSize,
    /// Two devices were given different numbers of entries.
    InconsistentLength,
}

/// The ways a bulk read request can be rejected.
#[derive(Clone, Copy, Debug)]
pub enum BulkReadError {
    /// The same device id was named twice.
    SameID(u8),
}

/// The types of instructions that can be sent to a Dynamixel.
#[derive(Clone, Copy, Debug, PartialEq, Eq, Structural)]
pub enum InstructionType {
    Ping,
    Read,
    Write,
    RegWrite,
    Action,
    Reset,
    Reboot,
    SyncWrite,
    BulkRead,
}

/// The wire code of each instruction. The synchronized instructions use
/// the protocol's reserved high range rather than continuing the sequence.
pub open spec fn instruction_code(instruction: InstructionType) -> u8 {
    match instruction {
        InstructionType::Ping => 1,
        InstructionType::Read => 2,
        InstructionType::Write => 3,
        InstructionType::RegWrite => 4,
        InstructionType::Action => 5,
        InstructionType::Reset => 6,
        InstructionType::Reboot => 7,
        InstructionType::SyncWrite => 0x83,
        InstructionType::BulkRead => 0x92,
    }
}

/// The instruction a wire code names, if any.
pub open spec fn instruction_of_code(value: u8) -> Option<InstructionType> {
    match value {
        1u8 => Some(InstructionType::Ping),
        2u8 => Some(InstructionType::Read),
        3u8 => Some(InstructionType::Write),
        4u8 => Some(InstructionType::RegWrite),
        5u8 => Some(InstructionType::Action),
        6u8 => Some(InstructionType::Reset),
        7u8 => Some(InstructionType::Reboot),
        0x83u8 => Some(InstructionType::SyncWrite),
        0x92u8 => Some(InstructionType::BulkRead),
        _ => None,
    }
}

impl InstructionType {
    /// The numeric wire code of this instruction.
    pub fn code(self) -> (r: u8)
        ensures
            r == instruction_code(self),
    {
        match self {
            InstructionType::Ping => 1,
            InstructionType::Read => 2,
            InstructionType::Write => 3,
            InstructionType::RegWrite => 4,
            InstructionType::Action => 5,
            InstructionType::Reset => 6,
            InstructionType::Reboot => 7,
            InstructionType::SyncWrite => 0x83,
            InstructionType::BulkRead => 0x92,
        }
    }

    /// Looks a wire code up in the instruction table, rejecting any code
    /// outside it.
    pub fn from_code(value: u8) -> (r: Result<Self, ProtocolOneError>)
        ensures
            instruction_of_code(value) matches Some(i) ==> r == Ok::<Self, ProtocolOneError>(i),
            instruction_of_code(value) is None ==> r == Err::<Self, ProtocolOneError>(
                ProtocolOneError::InvalidValue(value),
            ),
    {
        match value {
            1 => Ok(Self::Ping),
            2 => Ok(Self::Read),
            3 => Ok(Self::Write),
            4 => Ok(Self::RegWrite),
            5 => Ok(Self::Action),
            6 => Ok(Self::Reset),
            7 => Ok(Self::Reboot),
            0x83 => Ok(Self::SyncWrite),
            0x92 => Ok(Self::BulkRead),
            _ => Err(ProtocolOneError::InvalidValue(value)),
        }
    }
}

/// The types of statuses that can be returned by a Dynamixel, each stored
/// as a different bit of the reply's error byte.
#[derive(Clone, Copy, Debug, PartialEq, Eq, Structural)]
pub enum StatusType {
    Success,
    Instruction,
    Overload,
    Checksum,
    Range,
    Overheating,
    AngleLimit,
    InputVoltage,
}

/// The single bit of the error byte that marks each error kind. `Success`
/// is not an error and owns no bit.
pub open spec fn status_mask(status: StatusType) -> u8 {
    match status {
        StatusType::Success => 0,
        StatusType::Instruction => 0x02,
        StatusType::Overload => 0x04,
        StatusType::Checksum => 0x08,
        StatusType::Range => 0x10,
        StatusType::Overheating => 0x20,
        StatusType::AngleLimit => 0x40,
        StatusType::InputVoltage => 0x80,
    }
}

/// The bitwise OR of the masks of a list of statuses.
pub open spec fn status_or_fold(statuses: Seq<StatusType>) -> u8
    decreases statuses.len(),
{
    if statuses.len() == 0 {
        0
    } else {
        status_or_fold(statuses.drop_last()) | status_mask(statuses.last())
    }
}

/// The error byte a list of statuses encodes to. A list that contains the
/// `Success` marker anywhere encodes to zero outright, even when error
/// statuses stand beside it.
pub open spec fn encoded_status(statuses: Seq<StatusType>) -> u8 {
    if exists|k: int| 0 <= k < statuses.len() && statuses[k] is Success {
        0
    } else {
        status_or_fold(statuses)
    }
}

/// The list of error statuses an error byte decodes to, in bit order. Bit
/// zero never decodes to a named status: success is the empty list.
pub open spec fn decoded_status(error: u8) -> Seq<StatusType> {
    let s = Seq::<StatusType>::empty();
    let s = if error & 0x02 != 0 { s.push(StatusType::Instruction) } else { s };
    let s = if error & 0x04 != 0 { s.push(StatusType::Overload) } else { s };
    let s = if error & 0x08 != 0 { s.push(StatusType::Checksum) } else { s };
    let s = if error & 0x10 != 0 { s.push(StatusType::Range) } else { s };
    let s = if error & 0x20 != 0 { s.push(StatusType::Overheating) } else { s };
    let s = if error & 0x40 != 0 { s.push(StatusType::AngleLimit) } else { s };
    let s = if error & 0x80 != 0 { s.push(StatusType::InputVoltage) } else { s };
    s
}

impl StatusType {
    /// Gets the numeric representation of an error code given the list of
    /// errors.
    pub fn get_error_code(errors: &[Self]) -> (r: u8)
        ensures
            r == encoded_status(errors@),
    {
        let mut error_code: u8 = 0;
        let mut i: usize = 0;
        while i < errors.len()
            invariant
                i <= errors@.len(),
                error_code == status_or_fold(errors@.take(i as int)),
                forall|k: int| 0 <= k < i ==> !(#[trigger] errors@[k] is Success),
            decreases errors@.len() - i,
        {
            let mask: u8 = match errors[i] {
                Self::Success => {
                    return 0;
                },
                Self::Instruction => 0x02,
                Self::Overload => 0x04,
                Self::Checksum => 0x08,
                Self::Range => 0x10,
                Self::Overheating => 0x20,
                Self::AngleLimit => 0x40,
                Self::InputVoltage => 0x80,
            };
            error_code = error_code | mask;
            proof {
                assert(errors@.take(i + 1).drop_last() =~= errors@.take(i as int));
                assert(errors@.take(i + 1).last() == errors@[i as int]);
            }
            i = i + 1;
        }
        proof {
            assert(errors@.take(errors@.len() as int) =~= errors@);
        }
        error_code
    }

    /// Gets the list of error types given a numeric representation of the
    /// error.
    pub fn get_error_types(error: u8) -> (r: Vec<Self>)
        ensures
            r@ == decoded_status(error),
    {
        let mut errors: Vec<Self> = Vec::new();
        if error & 0x02 != 0 {
            errors.push(Self::Instruction);
        }
        if error & 0x04 != 0 {
            errors.push(Self::Overload);
        }
        if error & 0x08 != 0 {
            errors.push(Self::Checksum);
        }
        if error & 0x10 != 0 {
            errors.push(Self::Range);
        }
        if error & 0x20 != 0 {
            errors.push(Self::Overheating);
        }
        if error & 0x40 != 0 {
            errors.push(Self::AngleLimit);
        }
        if error & 0x80 != 0 {
            errors.push(Self::InputVoltage);
        }
        errors
    }
}

/// Decoding an error byte and re-encoding the resulting status list gives
/// the byte back with its lowest bit cleared: bit zero never decodes to a
/// named status, and every other bit survives the round trip. For an error
/// byte whose lowest bit is clear the round trip is exact.
pub proof fn lemma_status_byte_roundtrip(error: u8)
    ensures
        encoded_status(decoded_status(error)) == error & 0xFE,
        error & 0x01 == 0 ==> encoded_status(decoded_status(error)) == error,
{
    let s0 = Seq::<StatusType>::empty();
    let s1 = if error & 0x02 != 0 { s0.push(StatusType::Instruction) } else { s0 };
    let s2 = if error & 0x04 != 0 { s1.push(StatusType::Overload) } else { s1 };
    let s3 = if error & 0x08 != 0 { s2.push(StatusType::Checksum) } else { s2 };
    let s4 = if error & 0x10 != 0 { s3.push(StatusType::Range) } else { s3 };
    let s5 = if error & 0x20 != 0 { s4.push(StatusType::Overheating) } else { s4 };
    let s6 = if error & 0x40 != 0 { s5.push(StatusType::AngleLimit) } else { s5 };
    let s7 = if error & 0x80 != 0 { s6.push(StatusType::InputVoltage) } else { s6 };
    assert(decoded_status(error) == s7);

    // None of the pushed statuses is the `Success` marker, so encoding is
    // the plain fold of the masks.
    assert(forall|k: int| 0 <= k < s1.len() ==> !((#[trigger] s1[k]) is Success));
    assert(forall|k: int| 0 <= k < s2.len() ==> !((#[trigger] s2[k]) is Success));
    assert(forall|k: int| 0 <= k < s3.len() ==> !((#[trigger] s3[k]) is Success));
    assert(forall|k: int| 0 <= k < s4.len() ==> !((#[trigger] s4[k]) is Success));
    assert(forall|k: int| 0 <= k < s5.len() ==> !((#[trigger] s5[k]) is Success));
    assert(forall|k: int| 0 <= k < s6.len() ==> !((#[trigger] s6[k]) is Success));
    assert(forall|k: int| 0 <= k < s7.len() ==> !((#[trigger] s7[k]) is Success));
    assert(encoded_status(s7) == status_or_fold(s7));

    // Fold the masks up one bit at a time.
    assert(status_or_fold(s0) == 0);
    assert(status_or_fold(s1) == (error & 0x02)) by {
        if error & 0x02 != 0 {
            assert(s1.drop_last() =~= s0);
            assert(error & 0x02 != 0 ==> error & 0x02 == 0x02) by (bit_vector);
            assert(0u8 | 0x02u8 == 0x02u8) by (bit_vector);
        }
    }
    assert(status_or_fold(s2) == (error & 0x02) | (error & 0x04)) by {
        if error & 0x04 != 0 {
            assert(s2.drop_last() =~= s1);
            assert(error & 0x04 != 0 ==> error & 0x04 == 0x04) by (bit_vector);
        } else {
            assert((error & 0x02) | 0 == (error & 0x02)) by (bit_vector);
        }
    }
    let a2 = (error & 0x02) | (error & 0x04);
    assert(status_or_fold(s3) == a2 | (error & 0x08)) by {
        if error & 0x08 != 0 {
            assert(s3.drop_last() =~= s2);
            assert(error & 0x08 != 0 ==> error & 0x08 == 0x08) by (bit_vector);
        } else {
            assert(((error & 0x02) | (error & 0x04)) | 0 == (error & 0x02) | (error & 0x04))
                by (bit_vector);
        }
    }
    let a3 = a2 | (error & 0x08);
    assert(status_or_fold(s4) == a3 | (error & 0x10)) by {
        if error & 0x10 != 0 {
            assert(s4.drop_last() =~= s3);
            assert(error & 0x10 != 0 ==> error & 0x10 == 0x10) by (bit_vector);
        } else {
            assert((((error & 0x02) | (error & 0x04)) | (error & 0x08)) | 0 == ((error & 0x02)
                | (error & 0x04)) | (error & 0x08)) by (bit_vector);
        }
    }
    let a4 = a3 | (error & 0x10);
    assert(status_or_fold(s5) == a4 | (error & 0x20)) by {
        if error & 0x20 != 0 {
            assert(s5.drop_last() =~= s4);
            assert(error & 0x20 != 0 ==> error & 0x20 == 0x20) by (bit_vector);
        } else {
            assert(((((error & 0x02) | (error & 0x04)) | (error & 0x08)) | (error & 0x10)) | 0
                == (((error & 0x02) | (error & 0x04)) | (error & 0x08)) | (error & 0x10))
                by (bit_vector);
        }
    }
    let a5 = a4 | (error & 0x20);
    assert(status_or_fold(s6) == a5 | (error & 0x40)) by {
        if error & 0x40 != 0 {
            assert(s6.drop_last() =~= s5);
            assert(error & 0x40 != 0 ==> error & 0x40 == 0x40) by (bit_vector);
        } else {
            assert((((((error & 0x02) | (error & 0x04)) | (error & 0x08)) | (error & 0x10)) | (
            error & 0x20)) | 0 == ((((error & 0x02) | (error & 0x04)) | (error & 0x08)) | (
            error & 0x10)) | (error & 0x20)) by (bit_vector);
        }
    }
    let a6 = a5 | (error & 0x40);
    assert(status_or_fold(s7) == a6 | (error & 0x80)) by {
        if error & 0x80 != 0 {
            assert(s7.drop_last() =~= s6);
            assert(error & 0x80 != 0 ==> error & 0x80 == 0x80) by (bit_vector);
        } else {
            assert(((((((error & 0x02) | (error & 0x04)) | (error & 0x08)) | (error & 0x10)) | (
            error & 0x20)) | (error & 0x40)) | 0 == (((((error & 0x02) | (error & 0x04)) | (
            error & 0x08)) | (error & 0x10)) | (error & 0x20)) | (error & 0x40))
                by (bit_vector);
        }
    }
    assert(((((((error & 0x02) | (error & 0x04)) | (error & 0x08)) | (error & 0x10)) | (error
        & 0x20)) | (error & 0x40)) | (error & 0x80) == (error & 0xFE)) by (bit_vector);
    assert(error & 0x01 == 0 ==> error & 0xFE == error) by (bit_vector);
}

/// Encoding a status list that contains the `Success` marker yields zero,
/// whatever else stands in the list.
pub proof fn lemma_success_masks_errors(statuses: Seq<StatusType>, k: int)
    requires
        0 <= k < statuses.len(),
        statuses[k] is Success,
    ensures
        encoded_status(statuses) == 0,
{
}

/// The different kinds of values that can be stored in the packet's
/// error/instruction column.
#[derive(Clone, Debug)]
pub enum PacketType {
    Instruction(InstructionType),
    Status(Vec<StatusType>),
}

/// An abstraction of incoming/outgoing packets. The wire length and the
/// checksum are derived from the other fields when the packet is built and
/// are never independently mutable.
#[derive(Clone, Debug)]
pub struct Packet {
    pub id: u8,
    pub length: u8,
    pub packet_type: PacketType,
    pub bytes: Vec<u8>,
    pub parameters: Vec<Parameter>,
    pub checksum: u8,
}

/// The wire length field a parameter block yields: the low byte of the
/// block's byte count plus two.
pub open spec fn wire_length(params: Seq<Parameter>) -> u8 {
    ((params_bytes(params).len() + 2) % 256) as u8
}

impl Packet {
    /// The byte stored in the frame's opcode column: the instruction code
    /// of an outgoing packet, or the encoded error byte of a reply.
    pub open spec fn spec_opcode(&self) -> u8 {
        match self.packet_type {
            PacketType::Instruction(inst) => instruction_code(inst),
            PacketType::Status(errors) => encoded_status(errors@),
        }
    }

    /// A packet is well formed when its stored byte block, wire length and
    /// checksum are exactly the ones its parameters derive.
    pub open spec fn wf(&self) -> bool {
        &&& forall|i: int| 0 <= i < self.parameters@.len() ==> (#[trigger] self.parameters@[i]).wf()
        &&& self.bytes@ == params_bytes(self.parameters@)
        &&& self.length == wire_length(self.parameters@)
        &&& self.checksum == spec_checksum(self.id, self.length, self.bytes@, self.spec_opcode())
    }

    /// Creates a new protocol 1 packet. The wire length and the checksum
    /// are computed here, from the resolved parameter bytes and the opcode.
    pub fn new(id: u8, packet_type: PacketType, parameters: &[Parameter]) -> (r: Self)
        requires
            forall|i: int| 0 <= i < parameters@.len() ==> (#[trigger] parameters@[i]).wf(),
        ensures
            r.id == id,
            r.packet_type == packet_type,
            r.parameters@ == parameters@,
            r.wf(),
    {
        let param_bytes: Vec<u8> = Parameter::from_slice(parameters);

        let opcode: u8 = match &packet_type {
            PacketType::Instruction(inst) => inst.code(),
            PacketType::Status(status) => StatusType::get_error_code(status.as_slice()),
        };
        let length: u8 = ((param_bytes.len() % 256 + 2) % 256) as u8;
        proof {
            vstd::arithmetic::div_mod::lemma_add_mod_noop(param_bytes@.len() as int, 2, 256);
        }
        let checksum: u8 = Self::checksum(id, length, param_bytes.as_slice(), opcode);

        let mut owned_parameters: Vec<Parameter> = Vec::new();
        let mut i: usize = 0;
        while i < parameters.len()
            invariant
                i <= parameters@.len(),
                owned_parameters@ =~= parameters@.take(i as int),
            decreases parameters@.len() - i,
        {
            owned_parameters.push(parameters[i]);
            i = i + 1;
        }
        proof {
            assert(owned_parameters@ =~= parameters@);
        }

        Self {
            id,
            length,
            packet_type,
            bytes: param_bytes,
            parameters: owned_parameters,
            checksum,
        }
    }
}

/// The little-endian value of a byte sequence: the first byte is the least
/// significant.
pub open spec fn le_value(s: Seq<u8>) -> u64
    decreases s.len(),
{
    if s.len() == 0 {
        0u64
    } else {
        (le_value(s.skip(1)) << 8u64) | (s[0] as u64)
    }
}

/// Assembling a little-endian value out of up to four bytes loses
/// nothing: the parameter a read reply parses to serializes back to
/// exactly the reply's data bytes.
pub proof fn lemma_le_value_bytes(bytes: Seq<u8>)
    requires
        1 <= bytes.len() <= 4,
    ensures
        (Parameter {
            param_type: ParameterType::Unsigned(le_value(bytes)),
            len: bytes.len() as usize,
        }).bytes() =~= bytes,
{
    reveal_with_fuel(le_value, 6);
    let d = bytes.len() as int;
    let p = Parameter {
        param_type: ParameterType::Unsigned(le_value(bytes)),
        len: bytes.len() as usize,
    };
    let b0 = bytes[0] as u64;
    if d == 1 {
        let v = (0u64 << 8u64) | b0;
        assert(le_value(bytes) == v);
        assert(b0 < 256 ==> ((0u64 << 8u64) | b0) >> 0u64 == b0) by (bit_vector);
        assert(p.byte_at(0) == bytes[0]);
    } else if d == 2 {
        let b1 = bytes[1] as u64;
        assert(bytes.skip(1)[0] == bytes[1]);
        assert(bytes.skip(1).skip(1) =~= bytes.skip(2));
        let v1 = (0u64 << 8u64) | b1;
        assert(le_value(bytes.skip(1)) == v1);
        let v = (v1 << 8u64) | b0;
        assert(le_value(bytes) == v);
        assert(b0 < 256 && b1 < 256 ==> (((((0u64 << 8u64) | b1) << 8u64) | b0) >> 0u64) as u8
            == b0 as u8) by (bit_vector);
        assert(b0 < 256 && b1 < 256 ==> (((((0u64 << 8u64) | b1) << 8u64) | b0) >> 8u64) as u8
            == b1 as u8) by (bit_vector);
        assert(p.byte_at(0) == bytes[0]);
        assert(p.byte_at(1) == bytes[1]);
    } else if d == 3 {
        let b1 = bytes[1] as u64;
        let b2 = bytes[2] as u64;
        assert(bytes.skip(1)[0] == bytes[1]);
        assert(bytes.skip(2)[0] == bytes[2]);
        assert(bytes.skip(1).skip(1) =~= bytes.skip(2));
        assert(bytes.skip(2).skip(1) =~= bytes.skip(3));
        let v2 = (0u64 << 8u64) | b2;
        assert(le_value(bytes.skip(2)) == v2);
        let v1 = (v2 << 8u64) | b1;
        assert(le_value(bytes.skip(1)) == v1);
        let v = (v1 << 8u64) | b0;
        assert(le_value(bytes) == v);
        assert(b0 < 256 && b1 < 256 && b2 < 256 ==> (((((((0u64 << 8u64) | b2) << 8u64) | b1)
            << 8u64) | b0) >> 0u64) as u8 == b0 as u8) by (bit_vector);
        assert(b0 < 256 && b1 < 256 && b2 < 256 ==> (((((((0u64 << 8u64) | b2) << 8u64) | b1)
            << 8u64) | b0) >> 8u64) as u8 == b1 as u8) by (bit_vector);
        assert(b0 < 256 && b1 < 256 && b2 < 256 ==> (((((((0u64 << 8u64) | b2) << 8u64) | b1)
            << 8u64) | b0) >> 16u64) as u8 == b2 as u8) by (bit_vector);
        assert(p.byte_at(0) == bytes[0]);
        assert(p.byte_at(1) == bytes[1]);
        assert(p.byte_at(2) == bytes[2]);
    } else {
        let b1 = bytes[1] as u64;
        let b2 = bytes[2] as u64;
        let b3 = bytes[3] as u64;
        assert(bytes.skip(1)[0] == bytes[1]);
        assert(bytes.skip(2)[0] == bytes[2]);
        assert(bytes.skip(3)[0] == bytes[3]);
        assert(bytes.skip(1).skip(1) =~= bytes.skip(2));
        assert(bytes.skip(2).skip(1) =~= bytes.skip(3));
        assert(bytes.skip(3).skip(1) =~= bytes.skip(4));
        let v3 = (0u64 << 8u64) | b3;
        assert(le_value(bytes.skip(3)) == v3);
        let v2 = (v3 << 8u64) | b2;
        assert(le_value(bytes.skip(2)) == v2);
        let v1 = (v2 << 8u64) | b1;
        assert(le_value(bytes.skip(1)) == v1);
        let v = (v1 << 8u64) | b0;
        assert(le_value(bytes) == v);
        assert(b0 < 256 && b1 < 256 && b2 < 256 && b3 < 256 ==> (((((((((0u64 << 8u64) | b3)
            << 8u64) | b2) << 8u64) | b1) << 8u64) | b0) >> 0u64) as u8 == b0 as u8)
            by (bit_vector);
        assert(b0 < 256 && b1 < 256 && b2 < 256 && b3 < 256 ==> (((((((((0u64 << 8u64) | b3)
            << 8u64) | b2) << 8u64) | b1) << 8u64) | b0) >> 8u64) as u8 == b1 as u8)
            by (bit_vector);
        assert(b0 < 256 && b1 < 256 && b2 < 256 && b3 < 256 ==> (((((((((0u64 << 8u64) | b3)
            << 8u64) | b2) << 8u64) | b1) << 8u64) | b0) >> 16u64) as u8 == b2 as u8)
            by (bit_vector);
        assert(b0 < 256 && b1 < 256 && b2 < 256 && b3 < 256 ==> (((((((((0u64 << 8u64) | b3)
            << 8u64) | b2) << 8u64) | b1) << 8u64) | b0) >> 24u64) as u8 == b3 as u8)
            by (bit_vector);
        assert(p.byte_at(0) == bytes[0]);
        assert(p.byte_at(1) == bytes[1]);
        assert(p.byte_at(2) == bytes[2]);
        assert(p.byte_at(3) == bytes[3]);
    }
}

/// Whether a reply buffer begins with the `0xFF 0xFF` frame header.
pub open spec fn header_ok(buf: Seq<u8>) -> bool {
    buf.len() >= 2 && buf[0] == 0xFF && buf[1] == 0xFF
}

/// Whether a reply buffer has the total length the sent instruction
/// demands: a ping reply is exactly six bytes, a read reply six bytes plus
/// the requested data, and any other reply at least a bare frame.
pub open spec fn reply_length_ok(sent: Packet, buf: Seq<u8>) -> bool {
    match sent.packet_type {
        PacketType::Instruction(InstructionType::Ping) => buf.len() == 6,
        PacketType::Instruction(InstructionType::Read) => buf.len() == 6
            + sent.read_reply_data_len(),
        _ => buf.len() >= 6,
    }
}

/// The parameters a reply buffer carries, re-derived under the sent
/// instruction: none for a ping, one little-endian value of the requested
/// width for a read, and one single-byte value per trailing byte otherwise.
pub open spec fn parsed_params(sent: Packet, buf: Seq<u8>) -> Seq<Parameter> {
    match sent.packet_type {
        PacketType::Instruction(InstructionType::Ping) => Seq::empty(),
        PacketType::Instruction(InstructionType::Read) => {
            let d = sent.read_reply_data_len();
            seq![
                (Parameter {
                    param_type: ParameterType::Unsigned(le_value(buf.subrange(5, 5 + d))),
                    len: d as usize,
                }),
            ]
        },
        _ => Seq::new(
            (buf.len() - 6) as nat,
            |i: int|
                (Parameter { param_type: ParameterType::Unsigned(buf[5 + i] as u64), len: 1 }),
        ),
    }
}

/// Whether the final byte of a reply buffer equals the checksum re-derived
/// from the fields extracted out of it.
pub open spec fn reply_checksum_ok(sent: Packet, buf: Seq<u8>) -> bool {
    buf[buf.len() - 1] == spec_checksum(
        buf[2],
        buf[3],
        params_bytes(parsed_params(sent, buf)),
        buf[4],
    )
}

/// Whether a reply buffer passes every validation step and parses.
pub open spec fn parse_ok(sent: Packet, buf: Seq<u8>) -> bool {
    header_ok(buf) && reply_length_ok(sent, buf) && reply_checksum_ok(sent, buf)
}

impl Packet {
    /// The data width a read instruction asked its device to send back:
    /// the low byte of the second parameter.
    pub open spec fn read_reply_data_len(&self) -> int {
        self.parameters@[1].repr_u64() as int % 256
    }

    /// Parses a reply to this packet. The buffer must begin with the frame
    /// header, have the total length the sent instruction demands, and end
    /// with the checksum its fields derive; the reply's parameters are
    /// re-derived under the sent instruction and its error byte is decoded
    /// into the status list.
    pub fn from_buf(&self, buf: &[u8]) -> (r: Result<Self, ProtocolOneError>)
        requires
            self.packet_type matches PacketType::Instruction(_),
            self.packet_type matches PacketType::Instruction(InstructionType::Read)
                ==> self.parameters@.len() >= 2 && self.parameters@[1].wf() && 1
                <= self.read_reply_data_len() <= 4,
        ensures
            !header_ok(buf@) ==> (r matches Err(ProtocolOneError::InvalidHeader(h)) && h@
                == buf@.take(if buf@.len() < 2 { buf@.len() as int } else { 2 })),
            header_ok(buf@) && !reply_length_ok(*self, buf@) ==> r == Err::<Self,
                ProtocolOneError,
            >(ProtocolOneError::InvalidLength(buf@.len() as usize)),
            header_ok(buf@) && reply_length_ok(*self, buf@) && !reply_checksum_ok(*self, buf@)
                ==> r == Err::<Self, ProtocolOneError>(
                ProtocolOneError::InvalidChecksum(buf@[buf@.len() - 1]),
            ),
            parse_ok(*self, buf@) ==> (r matches Ok(q) && {
                &&& q.id == buf@[2]
                &&& q.packet_type matches PacketType::Status(f) && f@ == decoded_status(
                    buf@[4],
                )
                &&& q.parameters@ == parsed_params(*self, buf@)
                &&& q.wf()
            }),
            (r is Ok) <==> parse_ok(*self, buf@),
    {
        let n = buf.len();

        // Validate the header before anything else.
        if n < 2 || buf[0] != 0xFF || buf[1] != 0xFF {
            let mut header: Vec<u8> = Vec::new();
            if n >= 1 {
                header.push(buf[0]);
            }
            if n >= 2 {
                header.push(buf[1]);
            }
            proof {
                assert(header@ =~= buf@.take(
                    if buf@.len() < 2 {
                        buf@.len() as int
                    } else {
                        2
                    },
                ));
            }
            return Err(ProtocolOneError::InvalidHeader(header));
        }

        // Run the instruction-specific length check and re-derive the
        // parameters the reply carries.
        let op: InstructionType = match &self.packet_type {
            PacketType::Instruction(inst) => *inst,
            PacketType::Status(_) => {
                return unreached();
            },
        };
        let params: Vec<Parameter> = match op {
            InstructionType::Ping => {
                if n != 6 {
                    return Err(ProtocolOneError::InvalidLength(n));
                }
                Vec::new()
            },
            InstructionType::Read => {
                let width_bytes = self.parameters[1].as_bytes();
                let data_len: usize = width_bytes[0] as usize;
                proof {
                    let v = self.parameters@[1].repr_u64();
                    assert(((v >> 0u64) as u8) as u64 == v % 256) by (bit_vector);
                    assert(width_bytes@[0] == self.parameters@[1].byte_at(0));
                    assert(data_len == self.read_reply_data_len());
                }
                if n != 6 + data_len {
                    return Err(ProtocolOneError::InvalidLength(n));
                }
                let mut value: u64 = 0;
                let mut j: usize = data_len;
                while j > 0
                    invariant
                        j <= data_len,
                        1 <= data_len <= 4,
                        n == buf@.len(),
                        n == 6 + data_len,
                        value == le_value(
                            buf@.subrange(5, 5 + data_len as int).skip(j as int),
                        ),
                    decreases j,
                {
                    j = j - 1;
                    let b: u8 = buf[5 + j];
                    proof {
                        let sub = buf@.subrange(5, 5 + data_len as int);
                        assert(sub.skip(j as int)[0] == buf@[5 + j]);
                        assert(sub.skip(j as int).skip(1) =~= sub.skip(j + 1));
                    }
                    value = (value << 8u64) | (b as u64);
                }
                proof {
                    let sub = buf@.subrange(5, 5 + data_len as int);
                    assert(sub.skip(0) =~= sub);
                }
                vec![Parameter::unsigned(value, data_len)]
            },
            _ => {
                if n < 6 {
                    return Err(ProtocolOneError::InvalidLength(n));
                }
                let mut collected: Vec<Parameter> = Vec::new();
                let mut i: usize = 5;
                while i < n - 1
                    invariant
                        5 <= i <= n - 1,
                        n == buf@.len(),
                        n >= 6,
                        collected@ =~= parsed_params(*self, buf@).take(i - 5),
                        self.packet_type matches PacketType::Instruction(inst)
                            && !(inst is Ping) && !(inst is Read),
                    decreases n - 1 - i,
                {
                    collected.push(Parameter::unsigned(buf[i] as u64, 1));
                    proof {
                        assert(collected@ =~= parsed_params(*self, buf@).take(i - 5 + 1));
                    }
                    i = i + 1;
                }
                proof {
                    assert(collected@ =~= parsed_params(*self, buf@));
                }
                collected
            },
        };
        proof {
            assert(params@ =~= parsed_params(*self, buf@));
        }

        // Extract the fixed fields and validate the checksum over them.
        let id: u8 = buf[2];
        let length: u8 = buf[3];
        let error: u8 = buf[4];
        let param_bytes: Vec<u8> = Parameter::from_slice(params.as_slice());
        let chk: u8 = buf[n - 1];
        let expected: u8 = Self::checksum(id, length, param_bytes.as_slice(), error);
        if chk != expected {
            return Err(ProtocolOneError::InvalidChecksum(chk));
        }

        Ok(Self::new(id, PacketType::Status(StatusType::get_error_types(error)), params.as_slice()))
    }
}

impl PacketManipulation for Packet {
    /// Only instruction packets travel out over the bus; status packets are
    /// receive-only.
    open spec fn serializable(&self) -> bool {
        self.packet_type matches PacketType::Instruction(_)
    }

    /// The serialized frame: header, id, wire length, opcode, parameter
    /// bytes, checksum.
    open spec fn wire(&self) -> Seq<u8> {
        seq![255u8, 255u8, self.id, self.length, self.spec_opcode()] + self.bytes@ + seq![
            self.checksum,
        ]
    }

    /// Calculates the checksum for the packet: the one's complement of the
    /// low byte of the sum of every field outside the header.
    fn checksum(id: u8, length: u8, parameters: &[u8], opcode: u8) -> (r: u8) {
        let mut sum: u32 = (id as u32 + length as u32 + opcode as u32) % 256;
        let mut i: usize = 0;
        while i < parameters.len()
            invariant
                i <= parameters@.len(),
                sum == (id + length + opcode + byte_sum(parameters@.take(i as int))) % 256,
            decreases parameters@.len() - i,
        {
            let b: u8 = parameters[i];
            proof {
                let prior: int = id + length + opcode + byte_sum(parameters@.take(i as int));
                vstd::arithmetic::div_mod::lemma_add_mod_noop(prior, b as int, 256);
                assert(parameters@.take(i + 1).drop_last() =~= parameters@.take(i as int));
                assert(parameters@.take(i + 1).last() == parameters@[i as int]);
            }
            sum = (sum + b as u32) % 256;
            i = i + 1;
        }
        proof {
            assert(parameters@.take(parameters@.len() as int) =~= parameters@);
        }
        !(sum as u8)
    }

    /// Serializes an instruction packet into the exact frame the bus
    /// carries; a status packet is refused.
    fn generate(&self) -> (r: Result<Vec<u8>, ProtocolOneError>) {
        let opcode: u8 = match &self.packet_type {
            PacketType::Instruction(inst) => inst.code(),
            PacketType::Status(_) => {
                return Err(ProtocolOneError::ReceiveOnly);
            },
        };

        let mut packet: Vec<u8> = vec![255, 255, self.id, self.length, opcode];
        packet.extend_from_slice(self.bytes.as_slice());
        packet.push(self.checksum);
        proof {
            assert(packet@ =~= self.wire());
        }

        Ok(packet)
    }
}

/// A one-byte unsigned parameter.
pub open spec fn byte_param(b: u8) -> Parameter {
    Parameter { param_type: ParameterType::Unsigned(b as u64), len: 1 }
}

/// A block of single-byte parameters serializes to exactly one byte per
/// parameter: each parameter's low value byte, in order.
proof fn lemma_single_byte_params(q: Seq<Parameter>)
    requires
        forall|i: int| 0 <= i < q.len() ==> (#[trigger] q[i]).len == 1,
    ensures
        params_bytes(q).len() == q.len(),
        forall|i: int| 0 <= i < q.len() ==> params_bytes(q)[i] == (#[trigger] q[i]).byte_at(0),
    decreases q.len(),
{
    if q.len() > 0 {
        lemma_single_byte_params(q.drop_last());
        assert(q.last().bytes() =~= seq![q.last().byte_at(0)]);
        assert forall|i: int| 0 <= i < q.len() implies params_bytes(q)[i] == (
        #[trigger] q[i]).byte_at(0) by {
            if i < q.len() - 1 {
                assert(params_bytes(q)[i] == params_bytes(q.drop_last())[i]);
                assert(q.drop_last()[i] == q[i]);
            } else {
                assert(params_bytes(q)[i] == q.last().byte_at(0));
            }
        }
    }
}

/// Builds a packet that asks the addressed device to answer with its
/// presence.
pub fn ping(id: u8) -> (r: Packet)
    ensures
        r.id == id,
        r.packet_type == PacketType::Instruction(InstructionType::Ping),
        r.parameters@ == Seq::<Parameter>::empty(),
        r.wf(),
{
    let no_params: Vec<Parameter> = Vec::new();
    Packet::new(id, PacketType::Instruction(InstructionType::Ping), no_params.as_slice())
}

/// Builds a packet that reads `length` bytes from the given register
/// address of the addressed device.
pub fn read(id: u8, address: u8, length: u8) -> (r: Packet)
    ensures
        r.id == id,
        r.packet_type == PacketType::Instruction(InstructionType::Read),
        r.parameters@ == seq![byte_param(address), byte_param(length)],
        r.wf(),
{
    let params: Vec<Parameter> = vec![
        Parameter::unsigned(address as u64, 1),
        Parameter::unsigned(length as u64, 1),
    ];
    proof {
        assert(params@ =~= seq![byte_param(address), byte_param(length)]);
    }
    Packet::new(id, PacketType::Instruction(InstructionType::Read), params.as_slice())
}

/// Builds a packet that writes the given value at the given register
/// address of the addressed device.
pub fn write(id: u8, address: u8, value: Parameter) -> (r: Packet)
    requires
        value.wf(),
    ensures
        r.id == id,
        r.packet_type == PacketType::Instruction(InstructionType::Write),
        r.parameters@ == seq![byte_param(address), value],
        r.wf(),
{
    let params: Vec<Parameter> = vec![Parameter::unsigned(address as u64, 1), value];
    proof {
        assert(params@ =~= seq![byte_param(address), value]);
    }
    Packet::new(id, PacketType::Instruction(InstructionType::Write), params.as_slice())
}

/// Builds a packet that registers a deferred write at the given register
/// address, to be committed by a later action instruction.
pub fn register_write(id: u8, address: u8, value: Parameter) -> (r: Packet)
    requires
        value.wf(),
    ensures
        r.id == id,
        r.packet_type == PacketType::Instruction(InstructionType::RegWrite),
        r.parameters@ == seq![byte_param(address), value],
        r.wf(),
{
    let params: Vec<Parameter> = vec![Parameter::unsigned(address as u64, 1), value];
    proof {
        assert(params@ =~= seq![byte_param(address), value]);
    }
    Packet::new(id, PacketType::Instruction(InstructionType::RegWrite), params.as_slice())
}

/// Builds a packet that commits the addressed device's registered write.
pub fn action(id: u8) -> (r: Packet)
    ensures
        r.id == id,
        r.packet_type == PacketType::Instruction(InstructionType::Action),
        r.parameters@ == Seq::<Parameter>::empty(),
        r.wf(),
{
    let no_params: Vec<Parameter> = Vec::new();
    Packet::new(id, PacketType::Instruction(InstructionType::Action), no_params.as_slice())
}

/// Builds a packet that resets the addressed device to factory settings.
pub fn reset(id: u8) -> (r: Packet)
    ensures
        r.id == id,
        r.packet_type == PacketType::Instruction(InstructionType::Reset),
        r.parameters@ == Seq::<Parameter>::empty(),
        r.wf(),
{
    let no_params: Vec<Parameter> = Vec::new();
    Packet::new(id, PacketType::Instruction(InstructionType::Reset), no_params.as_slice())
}

/// Builds a packet that reboots the addressed device.
pub fn reboot(id: u8) -> (r: Packet)
    ensures
        r.id == id,
        r.packet_type == PacketType::Instruction(InstructionType::Reboot),
        r.parameters@ == Seq::<Parameter>::empty(),
        r.wf(),
{
    let no_params: Vec<Parameter> = Vec::new();
    Packet::new(id, PacketType::Instruction(InstructionType::Reboot), no_params.as_slice())
}

/// Serializing the same packet twice yields the same bytes: the frame is
/// a function of the packet's fields and of nothing else.
pub proof fn lemma_generate_deterministic(p: Packet, first: Seq<u8>, second: Seq<u8>)
    requires
        first == p.wire(),
        second == p.wire(),
    ensures
        first == second,
{
}

/// Round trip: a well-formed instruction packet, serialized and then
/// parsed back as a reply to itself, passes every validation step and
/// hands back the id and the parameters it was built from. This covers a
/// ping packet, which carries no parameters, and every instruction other
/// than a read whose parameters are single-byte values; a read request's
/// frame is not shaped like a read reply, so parsing pairs it with the
/// reply framing instead.
pub proof fn lemma_generate_parse_roundtrip(p: Packet)
    requires
        p.wf(),
        p.packet_type matches PacketType::Instruction(op) && !(op is Read),
        p.packet_type matches PacketType::Instruction(InstructionType::Ping)
            ==> p.parameters@.len() == 0,
        forall|i: int|
            0 <= i < p.parameters@.len() ==> {
                &&& (#[trigger] p.parameters@[i]).len == 1
                &&& p.parameters@[i].param_type matches ParameterType::Unsigned(v) && v < 256
            },
    ensures
        parse_ok(p, p.wire()),
        p.wire()[2] == p.id,
        p.wire()[4] == p.spec_opcode(),
        parsed_params(p, p.wire()) == p.parameters@,
{
    let buf = p.wire();
    let params = p.parameters@;
    let head = seq![255u8, 255u8, p.id, p.length, p.spec_opcode()];
    let n = buf.len() as int;
    assert(buf =~= head + p.bytes@ + seq![p.checksum]);
    assert(n == 6 + p.bytes@.len());
    assert(buf[0] == 255 && buf[1] == 255);
    assert(buf[2] == p.id && buf[3] == p.length && buf[4] == p.spec_opcode());
    assert(buf[n - 1] == p.checksum);
    assert(header_ok(buf));

    let op = p.packet_type->Instruction_0;
    if op is Ping {
        assert(params_bytes(params).len() == 0);
        assert(parsed_params(p, buf) =~= params);
    } else {
        lemma_single_byte_params(params);
        assert(p.bytes@.len() == params.len());
        let parsed = parsed_params(p, buf);
        assert(parsed.len() == params.len());
        assert forall|i: int| 0 <= i < params.len() implies parsed[i] == params[i] by {
            assert(buf[5 + i] == p.bytes@[i]);
            assert(p.bytes@[i] == params[i].byte_at(0));
            let v = params[i].param_type->Unsigned_0;
            assert((v >> 0u64) == v) by (bit_vector);
            assert(params[i].byte_at(0) == v as u8);
            assert((v as u8) as u64 == v);
            assert(parsed[i] == byte_param(p.bytes@[i]));
        }
        assert(parsed =~= params);
    }
    assert(reply_length_ok(p, buf));
    assert(params_bytes(parsed_params(p, buf)) == p.bytes@);
    assert(reply_checksum_ok(p, buf));
}

/// A packet used to address the same instruction to a group of servos.
/// Only concrete, non-broadcast ids may appear here.
#[derive(Clone, Copy, Debug, PartialEq, Eq, Structural)]
pub struct SyncPacket {
    pub id: u8,
    pub data: Parameter,
    pub address: u8,
}

/// The order a synchronized write emits its entries in: by device id, and
/// by register address within one device.
pub open spec fn key_le(a: SyncPacket, b: SyncPacket) -> bool {
    a.id < b.id || (a.id == b.id && a.address <= b.address)
}

/// Whether a sequence of entries is sorted by device id, then address.
pub open spec fn sync_sorted(s: Seq<SyncPacket>) -> bool {
    forall|i: int, j: int| 0 <= i < j < s.len() ==> #[trigger] key_le(s[i], s[j])
}

/// How many entries of the sequence address the given device.
pub open spec fn count_id(s: Seq<SyncPacket>, id: u8) -> nat
    decreases s.len(),
{
    if s.len() == 0 {
        0
    } else {
        count_id(s.drop_last(), id) + if s.last().id == id {
            1nat
        } else {
            0nat
        }
    }
}

/// Whether every entry declares the same data width as the first.
pub open spec fn uniform_size(s: Seq<SyncPacket>) -> bool {
    forall|i: int| 0 <= i < s.len() ==> (#[trigger] s[i]).data.len == s[0].data.len
}

/// Whether every addressed device owns the same number of entries.
pub open spec fn uniform_count(s: Seq<SyncPacket>) -> bool {
    forall|i: int| 0 <= i < s.len() ==> count_id(s, (#[trigger] s[i]).id) == count_id(s, s[0].id)
}

/// The per-device blocks of a synchronized write's parameter list: walking
/// the sorted entries, every `count`-th position opens a new device block
/// with the device's id, and each entry contributes its data value.
pub open spec fn sync_data_params(s: Seq<SyncPacket>, count: int, i: int) -> Seq<Parameter>
    decreases s.len() - i,
{
    if i < 0 || i >= s.len() {
        Seq::empty()
    } else {
        (if count > 0 && i % count == 0 {
            seq![byte_param(s[i].id)]
        } else {
            Seq::empty()
        }) + seq![s[i].data] + sync_data_params(s, count, i + 1)
    }
}

/// The number of data bytes each device block carries, reduced to the one
/// byte that holds it on the wire.
pub open spec fn sync_block_value(count: int, bytesize: int) -> u64 {
    ((count * bytesize) % 0x1_0000_0000_0000_0000) as u64
}

/// The full parameter list of a synchronized write over the sorted
/// entries: the first register address, the per-device byte count, then
/// the per-device blocks.
pub open spec fn sync_param_seq(s: Seq<SyncPacket>, count: int) -> Seq<Parameter> {
    seq![
        byte_param(s[0].address),
        (Parameter {
            param_type: ParameterType::Unsigned(sync_block_value(count, s[0].data.len as int)),
            len: 1,
        }),
    ] + sync_data_params(s, count, 0)
}

/// A device addresses as many entries as the sequence holds of its id, and
/// is addressed at all exactly when some entry names it.
proof fn lemma_count_id_pos(s: Seq<SyncPacket>, id: u8)
    ensures
        count_id(s, id) > 0 <==> (exists|j: int| 0 <= j < s.len() && s[j].id == id),
        count_id(s, id) <= s.len(),
    decreases s.len(),
{
    if s.len() > 0 {
        lemma_count_id_pos(s.drop_last(), id);
        if count_id(s, id) > 0 && !(s.last().id == id) {
            let j = choose|j: int| 0 <= j < s.drop_last().len() && s.drop_last()[j].id == id;
            assert(s[j].id == id);
        }
        if exists|j: int| 0 <= j < s.len() && s[j].id == id {
            let j = choose|j: int| 0 <= j < s.len() && s[j].id == id;
            if j < s.len() - 1 {
                assert(s.drop_last()[j].id == id);
            }
        }
    }
}

/// Extending a sequence by one entry raises exactly that entry's count.
proof fn lemma_count_id_step(s: Seq<SyncPacket>, k: int, id: u8)
    requires
        0 <= k < s.len(),
    ensures
        count_id(s.take(k + 1), id) == count_id(s.take(k), id) + if s[k].id == id {
            1int
        } else {
            0int
        },
{
    assert(s.take(k + 1).drop_last() =~= s.take(k));
    assert(s.take(k + 1).last() == s[k]);
}

/// Sorts synchronized-write entries by device id, then register address,
/// by inserting each entry at its place in a fresh list.
fn sort_sync_packets(packets: &Vec<SyncPacket>) -> (r: Vec<SyncPacket>)
    ensures
        r@.to_multiset() == packets@.to_multiset(),
        sync_sorted(r@),
        r@.len() == packets@.len(),
{
    let mut out: Vec<SyncPacket> = Vec::new();
    let mut k: usize = 0;
    proof {
        assert(out@ =~= packets@.take(0int));
    }
    while k < packets.len()
        invariant
            k <= packets@.len(),
            out@.len() == k,
            out@.to_multiset() == packets@.take(k as int).to_multiset(),
            sync_sorted(out@),
        decreases packets@.len() - k,
    {
        let p: SyncPacket = packets[k];
        let mut idx: usize = 0;
        while idx < out.len()
            invariant_except_break
                idx <= out@.len(),
                forall|t: int| 0 <= t < idx ==> key_le(#[trigger] out@[t], p),
            ensures
                idx <= out@.len(),
                forall|t: int| 0 <= t < idx ==> key_le(#[trigger] out@[t], p),
                idx < out@.len() ==> !key_le(out@[idx as int], p),
            decreases out@.len() - idx,
        {
            let q: SyncPacket = out[idx];
            if p.id < q.id || (p.id == q.id && p.address < q.address) {
                assert(!key_le(out@[idx as int], p));
                break ;
            }
            idx = idx + 1;
        }
        let ghost old_out = out@;
        out.insert(idx, p);
        proof {
            broadcast use vstd::seq_lib::to_multiset_insert;
            broadcast use vstd::seq_lib::to_multiset_build;

            assert(packets@.take(k + 1).drop_last() =~= packets@.take(k as int));
            assert(packets@.take(k + 1) == packets@.take(k as int).push(packets@[k as int]));
            assert(out@.to_multiset() == packets@.take(k + 1).to_multiset());
            assert forall|i: int, j: int| 0 <= i < j < out@.len() implies #[trigger] key_le(
                out@[i],
                out@[j],
            ) by {
                if j < idx {
                    assert(key_le(old_out[i], old_out[j]));
                } else if i < idx && j == idx {
                    assert(key_le(old_out[i], p));
                } else if i < idx && j > idx {
                    assert(key_le(old_out[i], old_out[j - 1]));
                } else if i == idx {
                    assert(out@[i] == p);
                    assert(out@[j] == old_out[j - 1]);
                    assert(!key_le(old_out[idx as int], p));
                    if idx < j - 1 {
                        assert(key_le(old_out[idx as int], old_out[j - 1]));
                    }
                } else {
                    assert(key_le(old_out[i - 1], old_out[j - 1]));
                }
            }
        }
        k = k + 1;
    }
    proof {
        assert(packets@.take(packets@.len() as int) =~= packets@);
    }
    out
}

/// Creates a packet to synchronously write to multiple servos at once.
/// The request is rejected when it names no devices, when its entries
/// declare different data widths, or when two devices are given different
/// numbers of entries. Otherwise the entries are ordered by device id and
/// register address and folded into one broadcast frame.
///
/// Only the per-device entry count is validated. That every device writes
/// the same set of register addresses, and that those addresses are
/// consecutive, is the caller's responsibility, as the protocol demands
/// but this builder does not check.
pub fn sync_write(packets: Vec<SyncPacket>) -> (r: Result<Packet, ProtocolOneError>)
    requires
        forall|i: int| 0 <= i < packets@.len() ==> (#[trigger] packets@[i]).data.wf(),
    ensures
        packets@.len() == 0 <==> r == Err::<Packet, ProtocolOneError>(
            ProtocolOneError::SyncWrite(SyncWriteError::NoDynamixels),
        ),
        packets@.len() > 0 && !uniform_size(packets@) <==> r == Err::<Packet, ProtocolOneError>(
            ProtocolOneError::SyncWrite(SyncWriteError::InconsistentSize),
        ),
        packets@.len() > 0 && uniform_size(packets@) && !uniform_count(packets@) <==> r == Err::<
            Packet,
            ProtocolOneError,
        >(ProtocolOneError::SyncWrite(SyncWriteError::InconsistentLength)),
        packets@.len() > 0 && uniform_size(packets@) && uniform_count(packets@) ==> (r matches Ok(
            p,
        ) && {
            &&& p.id == 0xFE
            &&& p.packet_type == PacketType::Instruction(InstructionType::SyncWrite)
            &&& p.wf()
            &&& exists|sorted: Seq<SyncPacket>|
                {
                    &&& sorted.to_multiset() == packets@.to_multiset()
                    &&& #[trigger] sync_sorted(sorted)
                    &&& sorted.len() == packets@.len()
                    &&& p.parameters@ == sync_param_seq(
                        sorted,
                        count_id(packets@, packets@[0].id) as int,
                    )
                }
        }),
        (r is Ok) <==> packets@.len() > 0 && uniform_size(packets@) && uniform_count(packets@),
{
    // There must be at least 1 Dynamixel.
    if packets.is_empty() {
        return Err(ProtocolOneError::SyncWrite(SyncWriteError::NoDynamixels));
    }

    // Every entry must declare the same data width.
    let bytesize: usize = packets[0].data.len;
    let mut i: usize = 0;
    while i < packets.len()
        invariant
            i <= packets@.len(),
            packets@.len() > 0,
            bytesize == packets@[0].data.len,
            forall|j: int| 0 <= j < i ==> (#[trigger] packets@[j]).data.len == bytesize,
        decreases packets@.len() - i,
    {
        if packets[i].data.len != bytesize {
            return Err(ProtocolOneError::SyncWrite(SyncWriteError::InconsistentSize));
        }
        i = i + 1;
    }

    // Every device must receive the same amount of data: tally the entries
    // of each id and compare the tallies.
    let mut counts: Vec<(u8, usize)> = Vec::new();
    let mut k: usize = 0;
    while k < packets.len()
        invariant
            k <= packets@.len(),
            packets@.len() > 0,
            forall|m: int|
                0 <= m < counts@.len() ==> (#[trigger] counts@[m]).1 == count_id(
                    packets@.take(k as int),
                    counts@[m].0,
                ),
            forall|m: int| 0 <= m < counts@.len() ==> (#[trigger] counts@[m]).1 >= 1,
            forall|m1: int, m2: int|
                0 <= m1 < m2 < counts@.len() ==> (#[trigger] counts@[m1]).0 != (
                #[trigger] counts@[m2]).0,
            forall|j: int|
                0 <= j < k ==> exists|m: int|
                    0 <= m < counts@.len() && (#[trigger] counts@[m]).0 == (
                    #[trigger] packets@[j]).id,
            k > 0 ==> counts@.len() > 0,
        decreases packets@.len() - k,
    {
        let id: u8 = packets[k].id;
        let mut idx: usize = 0;
        let mut found: bool = false;
        while idx < counts.len()
            invariant_except_break
                idx <= counts@.len(),
                !found,
                forall|m: int| 0 <= m < idx ==> (#[trigger] counts@[m]).0 != id,
            ensures
                idx <= counts@.len(),
                forall|m: int| 0 <= m < idx ==> (#[trigger] counts@[m]).0 != id,
                found ==> idx < counts@.len() && counts@[idx as int].0 == id,
                !found ==> forall|m: int| 0 <= m < counts@.len() ==> (#[trigger] counts@[m]).0
                    != id,
            decreases counts@.len() - idx,
        {
            if counts[idx].0 == id {
                found = true;
                break ;
            }
            idx = idx + 1;
        }
        let ghost old_counts = counts@;
        proof {
            lemma_count_id_pos(packets@.take(k as int), id);
            assert forall|other: u8| other != id implies count_id(
                packets@.take(k + 1),
                other,
            ) == count_id(packets@.take(k as int), other) by {
                lemma_count_id_step(packets@, k as int, other);
            }
            lemma_count_id_step(packets@, k as int, id);
            assert(packets@[k as int].id == id);
        }
        if found {
            let pair: (u8, usize) = counts[idx];
            counts[idx] = (pair.0, pair.1 + 1);
            proof {
                assert forall|m: int| 0 <= m < counts@.len() implies (#[trigger] counts@[m]).1
                    == count_id(packets@.take(k + 1), counts@[m].0) by {
                    if m != idx {
                        assert(old_counts[m].0 != old_counts[idx as int].0);
                    }
                }
            }
        } else {
            counts.push((id, 1));
            proof {
                // The id is under no tally yet, so it occurs nowhere in the
                // prefix and its tally starts at one.
                if count_id(packets@.take(k as int), id) > 0 {
                    let j = choose|j: int|
                        0 <= j < packets@.take(k as int).len() && packets@.take(k as int)[j].id
                            == id;
                    assert(packets@[j].id == id);
                    let m0 = choose|m: int|
                        0 <= m < old_counts.len() && old_counts[m].0 == packets@[j].id;
                    assert(false);
                }
                assert forall|m: int| 0 <= m < counts@.len() implies (#[trigger] counts@[m]).1
                    == count_id(packets@.take(k + 1), counts@[m].0) by {
                    if m < old_counts.len() {
                        assert(old_counts[m].0 != id);
                    }
                }
            }
        }
        proof {
            assert forall|j: int| 0 <= j < k + 1 implies exists|m: int|
                0 <= m < counts@.len() && (#[trigger] counts@[m]).0 == (
                #[trigger] packets@[j]).id by {
                if j < k {
                    let m0 = choose|m: int|
                        0 <= m < old_counts.len() && old_counts[m].0 == packets@[j].id;
                    assert(counts@[m0].0 == packets@[j].id);
                } else {
                    if found {
                        assert(counts@[idx as int].0 == id);
                    } else {
                        assert(counts@[old_counts.len() as int].0 == id);
                    }
                }
            }
        }
        k = k + 1;
    }
    proof {
        assert(packets@.take(packets@.len() as int) =~= packets@);
        assert forall|m: int| 0 <= m < counts@.len() implies (#[trigger] counts@[m]).1
            == count_id(packets@, counts@[m].0) by {
            assert(count_id(packets@.take(packets@.len() as int), counts@[m].0) == count_id(
                packets@,
                counts@[m].0,
            ));
        }
    }

    // Since all tallies must be equal, any tally can stand for the common
    // length in the emission below.
    let length: usize = counts[0].1;
    let mut m: usize = 1;
    while m < counts.len()
        invariant
            1 <= m <= counts@.len(),
            counts@.len() > 0,
            packets@.len() > 0,
            uniform_size(packets@),
            length == counts@[0].1,
            forall|t: int| 0 <= t < m ==> (#[trigger] counts@[t]).1 == length,
            forall|t: int|
                0 <= t < counts@.len() ==> (#[trigger] counts@[t]).1 == count_id(
                    packets@,
                    counts@[t].0,
                ),
            forall|t: int| 0 <= t < counts@.len() ==> (#[trigger] counts@[t]).1 >= 1,
            forall|j: int|
                0 <= j < packets@.len() ==> exists|mm: int|
                    0 <= mm < counts@.len() && (#[trigger] counts@[mm]).0 == (
                    #[trigger] packets@[j]).id,
        decreases counts@.len() - m,
    {
        if counts[m].1 != length {
            proof {
                let bad_id: u8 = counts@[m as int].0;
                let first_id: u8 = counts@[0].0;
                lemma_count_id_pos(packets@, bad_id);
                lemma_count_id_pos(packets@, first_id);
                let jb = choose|j: int| 0 <= j < packets@.len() && packets@[j].id == bad_id;
                let jf = choose|j: int| 0 <= j < packets@.len() && packets@[j].id == first_id;
                assert(count_id(packets@, packets@[jb].id) != count_id(
                    packets@,
                    packets@[jf].id,
                ));
                assert(!uniform_count(packets@));
            }
            return Err(ProtocolOneError::SyncWrite(SyncWriteError::InconsistentLength));
        }
        m = m + 1;
    }
    proof {
        // Every tally agrees, so every device's count equals the first
        // entry's count.
        assert forall|i0: int| 0 <= i0 < packets@.len() implies count_id(
            packets@,
            (#[trigger] packets@[i0]).id,
        ) == count_id(packets@, packets@[0].id) by {
            let mi = choose|mm: int|
                0 <= mm < counts@.len() && counts@[mm].0 == packets@[i0].id;
            let m0 = choose|mm: int| 0 <= mm < counts@.len() && counts@[mm].0 == packets@[0].id;
            assert(counts@[mi].1 == length);
            assert(counts@[m0].1 == length);
        }
        assert(uniform_count(packets@));
        let m0 = choose|mm: int| 0 <= mm < counts@.len() && counts@[mm].0 == packets@[0].id;
        assert(counts@[m0].1 == length);
        assert(count_id(packets@, packets@[0].id) == length);
    }

    // Sort the entries by id then by address, and emit the blocks.
    let sorted: Vec<SyncPacket> = sort_sync_packets(&packets);
    proof {
        broadcast use vstd::seq_lib::group_to_multiset_ensures;

        assert forall|i0: int| 0 <= i0 < sorted@.len() implies (#[trigger] sorted@[i0]).data.wf()
            && sorted@[i0].data.len == bytesize by {
            assert(sorted@.to_multiset().contains(sorted@[i0]));
            assert(packets@.to_multiset().count(sorted@[i0]) > 0);
            assert(packets@.contains(sorted@[i0]));
            let j = choose|j: int| 0 <= j < packets@.len() && packets@[j] == sorted@[i0];
            assert(packets@[j].data.wf());
        }
        assert(sorted@.to_multiset().contains(sorted@[0]));
        assert(packets@.contains(sorted@[0]));
    }

    let total: u64 = (length as u64).wrapping_mul(bytesize as u64);
    let mut params: Vec<Parameter> = vec![
        Parameter::unsigned(sorted[0].address as u64, 1),
        Parameter::unsigned(total, 1),
    ];
    let ghost target = sync_param_seq(sorted@, length as int);
    proof {
        assert(params@ + sync_data_params(sorted@, length as int, 0) =~= target);
    }
    let mut e: usize = 0;
    while e < sorted.len()
        invariant
            e <= sorted@.len(),
            sorted@.len() > 0,
            length >= 1,
            forall|i0: int| 0 <= i0 < sorted@.len() ==> (#[trigger] sorted@[i0]).data.wf(),
            params@ + sync_data_params(sorted@, length as int, e as int) =~= target,
            forall|i0: int| 0 <= i0 < params@.len() ==> (#[trigger] params@[i0]).wf(),
        decreases sorted@.len() - e,
    {
        let ghost before = params@;
        if e % length == 0 {
            params.push(Parameter::unsigned(sorted[e].id as u64, 1));
        }
        params.push(sorted[e].data);
        proof {
            assert(params@ + sync_data_params(sorted@, length as int, e + 1) =~= before
                + sync_data_params(sorted@, length as int, e as int));
        }
        e = e + 1;
    }
    proof {
        assert(sync_data_params(sorted@, length as int, sorted@.len() as int)
            =~= Seq::<Parameter>::empty());
        assert(params@ =~= target);
    }

    let result: Packet = Packet::new(
        DynamixelID::Broadcast.to_byte(),
        PacketType::Instruction(InstructionType::SyncWrite),
        params.as_slice(),
    );
    proof {
        assert(sync_block_value(length as int, bytesize as int) == total);
        assert(sync_sorted(sorted@) && sorted@.to_multiset() == packets@.to_multiset()
            && sorted@.len() == packets@.len() && result.parameters@ == sync_param_seq(
            sorted@,
            count_id(packets@, packets@[0].id) as int,
        ));
    }
    Ok(result)
}

/// A packet used to read from multiple servos at the same time (MX series
/// only).
#[derive(Clone, Copy, Debug, PartialEq, Eq, Structural)]
pub struct BulkReadPacket {
    pub id: u8,
    pub length: u8,
    pub address: u8,
}

/// The id of the first entry that repeats an earlier entry's device id,
/// scanning from position `j`; `None` when every id is distinct.
pub open spec fn first_repeated_id(s: Seq<BulkReadPacket>, j: int) -> Option<u8>
    decreases s.len() - j,
{
    if j < 0 || j >= s.len() {
        None
    } else if exists|i: int| 0 <= i < j && s[i].id == s[j].id {
        Some(s[j].id)
    } else {
        first_repeated_id(s, j + 1)
    }
}

/// The parameter blocks of a bulk read, one triple per entry in input
/// order, after the fixed reserved byte.
pub open spec fn bulk_data_params(s: Seq<BulkReadPacket>, i: int) -> Seq<Parameter>
    decreases s.len() - i,
{
    if i < 0 || i >= s.len() {
        Seq::empty()
    } else {
        seq![byte_param(s[i].length), byte_param(s[i].id), byte_param(s[i].address)]
            + bulk_data_params(s, i + 1)
    }
}

/// The full parameter list of a bulk read: the reserved zero byte, then
/// one `[length, id, address]` triple per entry.
pub open spec fn bulk_param_seq(s: Seq<BulkReadPacket>) -> Seq<Parameter> {
    seq![byte_param(0)] + bulk_data_params(s, 0)
}

/// Creates a packet to read from multiple servos at once. The request is
/// rejected when any device id appears twice; otherwise the entries are
/// folded, in input order, into one broadcast frame.
pub fn bulk_read(packets: &[BulkReadPacket]) -> (r: Result<Packet, ProtocolOneError>)
    ensures
        first_repeated_id(packets@, 0) matches Some(id) ==> r == Err::<Packet, ProtocolOneError>(
            ProtocolOneError::BulkRead(BulkReadError::SameID(id)),
        ),
        first_repeated_id(packets@, 0) is None ==> (r matches Ok(p) && {
            &&& p.id == 0xFE
            &&& p.packet_type == PacketType::Instruction(InstructionType::BulkRead)
            &&& p.parameters@ == bulk_param_seq(packets@)
            &&& p.wf()
        }),
{
    let mut known_ids: Vec<u8> = Vec::new();
    let mut j: usize = 0;
    while j < packets.len()
        invariant
            j <= packets@.len(),
            known_ids@ =~= packets@.take(j as int).map_values(|p: BulkReadPacket| p.id),
            first_repeated_id(packets@, j as int) == first_repeated_id(packets@, 0),
        decreases packets@.len() - j,
    {
        let id: u8 = packets[j].id;
        let mut m: usize = 0;
        let mut seen: bool = false;
        while m < known_ids.len()
            invariant_except_break
                m <= known_ids@.len(),
                !seen,
                forall|t: int| 0 <= t < m ==> known_ids@[t] != id,
            ensures
                seen ==> exists|t: int| 0 <= t < known_ids@.len() && known_ids@[t] == id,
                !seen ==> forall|t: int| 0 <= t < known_ids@.len() ==> known_ids@[t] != id,
            decreases known_ids@.len() - m,
        {
            if known_ids[m] == id {
                seen = true;
                break ;
            }
            m = m + 1;
        }
        if seen {
            proof {
                let t = choose|t: int| 0 <= t < known_ids@.len() && known_ids@[t] == id;
                assert(packets@.take(j as int)[t].id == id);
                assert(packets@[t].id == packets@[j as int].id);
                assert(first_repeated_id(packets@, j as int) == Some(id));
            }
            return Err(ProtocolOneError::BulkRead(BulkReadError::SameID(id)));
        }
        proof {
            assert forall|i: int| 0 <= i < j implies packets@[i].id != id by {
                assert(known_ids@[i] == packets@.take(j as int)[i].id);
            }
            assert(first_repeated_id(packets@, j + 1) == first_repeated_id(packets@, j as int));
            assert(packets@.take(j + 1).map_values(|p: BulkReadPacket| p.id) =~= known_ids@.push(
                id,
            ));
        }
        known_ids.push(id);
        j = j + 1;
    }

    let mut params: Vec<Parameter> = vec![Parameter::unsigned(0, 1)];
    let ghost target = bulk_param_seq(packets@);
    proof {
        assert(params@ + bulk_data_params(packets@, 0) =~= target);
    }
    let mut e: usize = 0;
    while e < packets.len()
        invariant
            e <= packets@.len(),
            params@ + bulk_data_params(packets@, e as int) =~= target,
            forall|i0: int| 0 <= i0 < params@.len() ==> (#[trigger] params@[i0]).wf(),
        decreases packets@.len() - e,
    {
        let ghost before = params@;
        params.push(Parameter::unsigned(packets[e].length as u64, 1));
        params.push(Parameter::unsigned(packets[e].id as u64, 1));
        params.push(Parameter::unsigned(packets[e].address as u64, 1));
        proof {
            assert(params@ + bulk_data_params(packets@, e + 1) =~= before + bulk_data_params(
                packets@,
                e as int,
            ));
        }
        e = e + 1;
    }
    proof {
        assert(bulk_data_params(packets@, packets@.len() as int) =~= Seq::<Parameter>::empty());
        assert(params@ =~= target);
    }

    Ok(
        Packet::new(
            DynamixelID::Broadcast.to_byte(),
            PacketType::Instruction(InstructionType::BulkRead),
            params.as_slice(),
        ),
    )
}

} // verus!
