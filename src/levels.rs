use vstd::prelude::*;
use crate::marshal::BoundaryError;

verus! {

/// Raw code for LOW voltage on a digital pin.
pub const LOW: u32 = 0;
/// Raw code for HIGH voltage on a digital pin.
pub const HIGH: u32 = 1;
/// Raw code for an interrupt on any change of level.
pub const CHANGE: u32 = 1;
/// Raw code for an interrupt on a falling edge.
pub const FALLING: u32 = 2;
/// Raw code for an interrupt on a rising edge.
pub const RISING: u32 = 3;
/// Raw code for input mode.
pub const INPUT: u32 = 0;
/// Raw code for output mode.
pub const OUTPUT: u32 = 2;

/// How a digital pin is configured.
#[derive(Clone, Copy, Debug, PartialEq, Eq, Structural)]
pub enum PinMode {
    Input,
    Output,
}

/// The level of a digital pin.
#[derive(Clone, Copy, Debug, PartialEq, Eq, Structural)]
pub enum PinVoltage {
    Low,
    High,
}

/// Which transition of a pin fires its interrupt callback.
#[derive(Clone, Copy, Debug, PartialEq, Eq, Structural)]
pub enum InterruptMode {
    Rising,
    Falling,
    Change,
}

pub open spec fn mode_code(m: PinMode) -> u32 {
    match m {
        PinMode::Input => INPUT,
        PinMode::Output => OUTPUT,
    }
}

pub open spec fn voltage_code(v: PinVoltage) -> u32 {
    match v {
        PinVoltage::Low => LOW,
        PinVoltage::High => HIGH,
    }
}

pub open spec fn edge_code(m: InterruptMode) -> u32 {
    match m {
        InterruptMode::Rising => RISING,
        InterruptMode::Falling => FALLING,
        InterruptMode::Change => CHANGE,
    }
}

/// Whether a pin going from `from` to `to` fires an interrupt in mode `m`.
pub open spec fn spec_fires(m: InterruptMode, from: PinVoltage, to: PinVoltage) -> bool {
    match m {
        InterruptMode::Rising => from == PinVoltage::Low && to == PinVoltage::High,
        InterruptMode::Falling => from == PinVoltage::High && to == PinVoltage::Low,
        InterruptMode::Change => from != to,
    }
}

impl PinMode {
    /// The code the host expects for this mode.
    pub fn code(self) -> (r: u32)
        ensures
            r == mode_code(self),
    {
        match self {
            PinMode::Input => INPUT,
            PinMode::Output => OUTPUT,
        }
    }
}

impl PinVoltage {
    /// The code the host expects for this level.
    pub fn code(self) -> (r: u32)
        ensures
            r == voltage_code(self),
    {
        match self {
            PinVoltage::Low => LOW,
            PinVoltage::High => HIGH,
        }
    }

    /// Reads a level the host reported; anything but LOW or HIGH is refused.
    pub fn from_code(raw: u32) -> (r: Result<PinVoltage, BoundaryError>)
        ensures
            r == (if raw == LOW {
                Ok(PinVoltage::Low)
            } else if raw == HIGH {
                Ok(PinVoltage::High)
            } else {
                Err::<PinVoltage, BoundaryError>(BoundaryError::InvalidVoltage(raw))
            }),
            r matches Ok(v) ==> voltage_code(v) == raw,
    {
        if raw == LOW {
            Ok(PinVoltage::Low)
        } else if raw == HIGH {
            Ok(PinVoltage::High)
        } else {
            Err(BoundaryError::InvalidVoltage(raw))
        }
    }
}

impl InterruptMode {
    /// The code the host expects for this trigger.
    pub fn code(self) -> (r: u32)
        ensures
            r == edge_code(self),
    {
        match self {
            InterruptMode::Rising => RISING,
            InterruptMode::Falling => FALLING,
            InterruptMode::Change => CHANGE,
        }
    }

    /// Whether a pin going from `from` to `to` fires an interrupt in this mode.
    pub fn fires(self, from: PinVoltage, to: PinVoltage) -> (r: bool)
        ensures
            r == spec_fires(self, from, to),
    {
        match self {
            InterruptMode::Rising => from == PinVoltage::Low && to == PinVoltage::High,
            InterruptMode::Falling => from == PinVoltage::High && to == PinVoltage::Low,
            InterruptMode::Change => from != to,
        }
    }
}

} // verus!
