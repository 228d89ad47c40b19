//! Sensors that exist only in software, for exercising the rest of the
//! stack without hardware attached.
use vstd::prelude::*;

verus! {

/// Where a virtual sensor takes its readings from.
pub enum VirtualDataType {
    Random,
    Dataset,
    Constant(usize),
}

/// A software-only sensor.
pub struct VirtualSensor {
    pub datatype: VirtualDataType,
}

impl VirtualSensor {
    /// Creates a virtual sensor that reads from the given source.
    pub fn new(datatype: VirtualDataType) -> (r: VirtualSensor)
        ensures
            r == (VirtualSensor { datatype }),
    {
        VirtualSensor { datatype }
    }
}

} // verus!
