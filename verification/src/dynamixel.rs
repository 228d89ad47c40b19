//! An abstract representation of Dynamixel servos and of the values that
//! travel over the half-duplex bus that links them.
use vstd::prelude::*;

pub mod protocol_one;

use crate::sensor::DataUnit;
use crate::dynamixel::protocol_one::ProtocolOneError;

verus! {

/// A protocol-agnostic representation of a Dynamixel packet.
pub enum Packet {
    ProtocolOne(protocol_one::Packet),
}

/// The revisions of the Dynamixel wire protocol.
pub enum Protocol {
    ProtocolOne,
    ProtocolTwo,
}

/// The abstract categories an item in the control table can be part of.
#[derive(Clone, Copy, Debug)]
pub enum ControlTableType {
    Sensor,
    ServoInformation,
    Component,
    Value,
    Uncategorized,
}

/// The levels of permission a user is granted in terms of an item in the
/// control table.
#[derive(Clone, Copy, Debug)]
pub enum AccessLevel {
    Read,
    Write,
    ReadWrite,
}

/// The half of a modbus register an item occupies.
#[derive(Clone, Copy, Debug)]
pub enum ModbusByte {
    Low,
    High,
}

/// The location of an item when addressed over modbus.
#[derive(Clone, Debug)]
pub struct ModbusAddress {
    pub address: usize,
    pub byte: Option<ModbusByte>,
}

/// The address of an item in the control table, either in the standard
/// layout or in the modbus layout.
#[derive(Clone, Copy, Debug)]
pub enum DynamixelAddress<T> {
    Standard(T),
    Modbus(T),
}

/// A representation of an item in the control table, where only information
/// is stored. When applicable, items in the control table are represented in
/// this format, along with any optional data such as range or description.
#[derive(Clone, Debug)]
pub struct ControlTableData<T> {
    pub address: DynamixelAddress<T>,
    pub size: T,
    pub data_name: Option<String>,
    pub description: Option<String>,
    pub access: AccessLevel,
    pub initial_value: Option<String>,
    pub range: Option<(T, T)>,
    pub units: Option<DataUnit>,
    pub modbus: Option<ModbusAddress>,
}

/// The errors that can arise while assembling a Dynamixel from stored
/// control-table information.
#[derive(Clone, Debug)]
pub enum DynamixelError {
    InvalidTemplate(String),
    NoDataName,
}

/// A representation of the 2 movement states a Dynamixel can be in:
/// - Wheel
/// - Joint
pub enum DynamixelMode {
    Wheel,
    Joint,
}

/// Packets can either be addressed to a single Dynamixel or all dynamixels.
#[derive(Clone, Copy, Debug, PartialEq, Eq, Structural, Hash)]
pub enum DynamixelID {
    Broadcast,
    ID(u8),
}

impl DynamixelID {
    /// The one-byte bus address this identifier stands for; `0xFE` addresses
    /// every device on the bus at once.
    pub open spec fn spec_byte(self) -> u8 {
        match self {
            DynamixelID::Broadcast => 0xFE,
            DynamixelID::ID(id) => id,
        }
    }

    /// Resolves the identifier to the one-byte address used on the wire.
    pub fn to_byte(self) -> (r: u8)
        ensures
            r == self.spec_byte(),
    {
        match self {
            DynamixelID::Broadcast => 0xFE,
            DynamixelID::ID(id) => id,
        }
    }
}

/// Functionality common to every packet representation: deriving the frame
/// checksum and serializing the packet into wire bytes.
pub trait PacketManipulation: Sized {
    /// Whether this packet may be serialized into an outgoing frame.
    spec fn serializable(&self) -> bool;

    /// The exact byte sequence a serializable packet produces.
    spec fn wire(&self) -> Seq<u8>;

    /// Calculates the checksum for a packet built from the given fields.
    fn checksum(id: u8, length: u8, parameters: &[u8], opcode: u8) -> (r: u8)
        ensures
            r == spec_checksum(id, length, parameters@, opcode),
    ;

    /// Serializes the packet into the frame sent over the bus.
    fn generate(&self) -> (r: Result<Vec<u8>, ProtocolOneError>)
        ensures
            self.serializable() ==> (r matches Ok(v) && v@ == self.wire()),
            !self.serializable() ==> r == Err::<Vec<u8>, ProtocolOneError>(
                ProtocolOneError::ReceiveOnly,
            ),
    ;
}

/// Functionality common to every servo abstraction.
pub trait DynamixelInformation {
    fn get_id(&self) -> DynamixelID;
}

/// The signedness of a value carried in a packet.
#[derive(Clone, Copy, Debug, PartialEq, Eq, Structural)]
pub enum ParameterType {
    Signed(i64),
    Unsigned(u64),
}

/// A single fixed-width numeric payload value carried in a frame. The value
/// occupies `len` bytes on the wire, little-endian.
#[derive(Clone, Copy, Debug, PartialEq, Eq, Structural)]
pub struct Parameter {
    pub param_type: ParameterType,
    pub len: usize,
}

/// The sum of a sequence of bytes, as an unbounded integer.
pub open spec fn byte_sum(s: Seq<u8>) -> int
    decreases s.len(),
{
    if s.len() == 0 {
        0
    } else {
        byte_sum(s.drop_last()) + s.last()
    }
}

/// The frame checksum: the one's complement of the low byte of the sum of
/// the id, the wire length, the opcode (or error byte) and every parameter
/// byte.
pub open spec fn spec_checksum(id: u8, length: u8, parameters: Seq<u8>, opcode: u8) -> u8 {
    !(((id + length + opcode + byte_sum(parameters)) % 256) as u8)
}

/// The concatenation of the wire bytes of a sequence of parameters.
pub open spec fn params_bytes(s: Seq<Parameter>) -> Seq<u8>
    decreases s.len(),
{
    if s.len() == 0 {
        Seq::empty()
    } else {
        params_bytes(s.drop_last()) + s.last().bytes()
    }
}

impl Parameter {
    /// The value's 64-bit two's-complement image, which the wire bytes are
    /// taken from.
    pub open spec fn repr_u64(self) -> u64 {
        match self.param_type {
            ParameterType::Signed(value) => value as u64,
            ParameterType::Unsigned(value) => value,
        }
    }

    /// A parameter is well formed when its declared width fits the 1 to 4
    /// byte range the protocol carries.
    pub open spec fn wf(self) -> bool {
        1 <= self.len <= 4
    }

    /// Byte `i` of the little-endian wire image of the value.
    pub open spec fn byte_at(self, i: int) -> u8 {
        (self.repr_u64() >> ((8 * i) as u64)) as u8
    }

    /// The `len` little-endian wire bytes of the value. Upper bytes of a
    /// value wider than `len` bytes are discarded.
    pub open spec fn bytes(self) -> Seq<u8> {
        Seq::new(self.len as nat, |i: int| self.byte_at(i))
    }

    /// Wraps a signed value destined for `len` wire bytes.
    pub fn signed(value: i64, len: usize) -> (r: Self)
        ensures
            r == (Parameter { param_type: ParameterType::Signed(value), len }),
    {
        Self { param_type: ParameterType::Signed(value), len }
    }

    /// Wraps an unsigned value destined for `len` wire bytes.
    pub fn unsigned(value: u64, len: usize) -> (r: Self)
        ensures
            r == (Parameter { param_type: ParameterType::Unsigned(value), len }),
    {
        Self { param_type: ParameterType::Unsigned(value), len }
    }

    /// The little-endian wire bytes of this parameter: the low `len` bytes
    /// of the value, upper bytes silently discarded.
    pub fn as_bytes(&self) -> (r: Vec<u8>)
        requires
            self.wf(),
        ensures
            r@ == self.bytes(),
    {
        let value: u64 = match self.param_type {
            ParameterType::Signed(v) => v as u64,
            ParameterType::Unsigned(v) => v,
        };
        let mut out: Vec<u8> = Vec::new();
        let mut i: usize = 0;
        while i < self.len
            invariant
                i <= self.len <= 4,
                value == self.repr_u64(),
                out@ =~= self.bytes().take(i as int),
            decreases self.len - i,
        {
            let shift: u64 = 8 * (i as u64);
            #[verifier::truncate]
            let b: u8 = (value >> shift) as u8;
            out.push(b);
            proof {
                assert(b == self.byte_at(i as int));
                assert(out@ =~= self.bytes().take(i + 1));
            }
            i = i + 1;
        }
        proof {
            assert(out@ =~= self.bytes());
        }
        out
    }

    /// Serializes a parameter block: the concatenation of every parameter's
    /// wire bytes, in order.
    pub fn from_slice(value: &[Parameter]) -> (r: Vec<u8>)
        requires
            forall|i: int| 0 <= i < value@.len() ==> (#[trigger] value@[i]).wf(),
        ensures
            r@ == params_bytes(value@),
    {
        let mut out: Vec<u8> = Vec::new();
        let mut i: usize = 0;
        while i < value.len()
            invariant
                i <= value@.len(),
                forall|j: int| 0 <= j < value@.len() ==> (#[trigger] value@[j]).wf(),
                out@ == params_bytes(value@.take(i as int)),
            decreases value@.len() - i,
        {
            let mut bytes = value[i].as_bytes();
            out.append(&mut bytes);
            proof {
                assert(value@.take(i + 1).drop_last() =~= value@.take(i as int));
                assert(value@.take(i + 1).last() == value@[i as int]);
            }
            i = i + 1;
        }
        proof {
            assert(value@.take(value@.len() as int) =~= value@);
        }
        out
    }
}

} // verus!
