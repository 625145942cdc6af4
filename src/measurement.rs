use vstd::prelude::*;

verus! {

/// One sensor sample vector.
///
/// Each coordinate is held as the bit pattern of an IEEE-754 single-precision
/// value, so that samples pass through the bench exactly as they were drawn.
#[derive(Clone, Copy, Debug, PartialEq, Eq, Structural)]
pub struct Axis {
    pub x: u32,
    pub y: u32,
    pub z: u32,
}

/// One synchronised triple of samples: accelerometer, gyroscope, magnetometer.
#[derive(Clone, Copy, Debug, PartialEq, Eq, Structural)]
pub struct Measurement {
    pub acc: Axis,
    pub gyro: Axis,
    pub mag: Axis,
}

/// An orientation estimate, each component held as the bit pattern of an
/// IEEE-754 single-precision value.
#[derive(Clone, Copy, Debug, PartialEq, Eq, Structural)]
pub struct Quaternion {
    pub a: u32,
    pub b: u32,
    pub c: u32,
    pub d: u32,
}

} // verus!
