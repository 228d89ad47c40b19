//! The data model of a connection between the controller and a bus of
//! devices. Opening and driving a real connection is transport work and
//! lives outside this crate; these types describe one.
use vstd::prelude::*;

verus! {

/// How a connection is configured: the baud rate, the device path and the
/// read timeout in milliseconds. A `None` leaves the choice to the
/// transport.
#[derive(Clone, Debug)]
pub struct ConnectionSettings {
    pub baudrate: Option<usize>,
    pub path: Option<String>,
    pub timeout_ms: Option<u64>,
}

impl Default for ConnectionSettings {
    /// The settings a Dynamixel bus usually runs under: one megabaud on
    /// `/dev/ttyACM1` with a five millisecond read timeout.
    fn default() -> (r: Self)
        ensures
            r.baudrate == Some(1_000_000usize),
            r.path matches Some(p) && p@ == "/dev/ttyACM1"@,
            r.timeout_ms == Some(5u64),
    {
        ConnectionSettings {
            baudrate: Some(1_000_000),
            path: Some("/dev/ttyACM1".to_owned()),
            timeout_ms: Some(5),
        }
    }
}

/// All the different methods of connection between nodes.
#[derive(Clone, Copy, Debug)]
pub enum ConnectionType {
    Wired,
    Wireless,
    Virtual,
}

/// The physical or virtual channel a connection runs over.
#[derive(Clone, Copy, Debug)]
pub enum ConnectionMethod {
    USB,
    Ethernet,
    AnaloguePin,
    DigitalPin,
    TCP,
    Bluetooth,
    Virtual,
}

/// Whether data is produced on demand or polled.
#[derive(Clone, Copy, Debug)]
pub enum ConnectionMode {
    Generated,
    Polling,
}

} // verus!
