use vstd::prelude::*;

verus! {

/// Whether the unit runs.
#[derive(Clone, Copy, Debug, PartialEq, Eq, Structural)]
pub enum Power {
    On,
    Off,
}

/// Operating mode of the unit.
#[derive(Clone, Copy, Debug, PartialEq, Eq, Structural)]
pub enum Mode {
    Heat,
    Dry,
    Cool,
    Fan,
}

/// Fan speed.
#[derive(Clone, Copy, Debug, PartialEq, Eq, Structural)]
pub enum Fan {
    Auto,
    Low,
    Medium,
    High,
    Higher,
}

/// One command for the unit: power, mode, temperature in degrees Celsius and fan speed.
#[derive(Clone, Copy, Debug, PartialEq, Eq, Structural)]
pub struct Settings {
    pub power: Power,
    pub mode: Mode,
    pub temp: u8,
    pub fan: Fan,
}

/// Lowest temperature the protocol can carry.
pub const MIN_TEMP: u8 = 16;

/// Highest temperature the protocol can carry.
pub const MAX_TEMP: u8 = 31;

/// A temperature that the frame can encode.
pub open spec fn valid_temperature(t: u8) -> bool {
    MIN_TEMP <= t <= MAX_TEMP
}

} // verus!
