//! Abstractions for driving robot hardware: the Dynamixel wire-protocol
//! codec with its packet builders, together with the data model shared by
//! sensors and connections.
use vstd::prelude::*;

pub mod connection;
pub mod dynamixel;
pub mod sensor;

verus! {

/// Generic functionality that should be exposed by any connected servo.
pub trait Servo {
    fn set_pos(&mut self, pos: usize) -> Result<(), String>;
}

/// Generic functionality that should be exposed by any connected motor.
pub trait Motor {
    fn set_speed(&mut self, speed: usize) -> Result<(), String>;

    fn get_speed(&self) -> usize;

    fn get_max_speed(&self) -> usize;
}

} // verus!
