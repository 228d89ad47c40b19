//! An abstract data model for the sensors a robot carries.
use vstd::prelude::*;

pub mod numeric_sensor;
pub mod virtual_sensor;

verus! {

/// A representation of all common units of data that may be processed.
#[derive(Clone, Copy, Debug, PartialEq, Eq, Structural)]
pub enum DataUnit {
    Second,
    Pulse,
    RevolutionsPerMinute,
    DegreesCelcius,
    Volts,
    Percentage,
    Amps,
    Other,
}

/// An abstract representation of data collected by the sensor.
pub struct DataValue<T> {
    pub unit: DataUnit,
    pub power: isize,
    pub value: T,
}

/// An abstract representation of a sensor on the robot.
pub struct Sensor<T> {
    pub model_name: String,
    pub last_value: DataValue<T>,
    pub historical_values: Vec<DataValue<T>>,
    pub stores_historical: bool,
}

/// The most generic API a sensor can possess.
pub trait DataSensor<T> {
    fn get_data(&self) -> DataValue<T>;
}

} // verus!
