//! Thermistor voltage to temperature, approximated by piecewise straight
//! lines over the sensor's operating range.

use vstd::prelude::*;

verus! {

/// Temperature in degrees Celsius read off a thermistor divider voltage in
/// millivolts. Each branch is a line fitted to one stretch of the curve.
pub open spec fn temp_of(voltage: int) -> int {
    if voltage > 2363 {
        0
    } else if voltage > 1352 {
        76 - voltage * 32 / 1000
    } else if voltage > 971 {
        87 - voltage * 40 / 1000
    } else if voltage > 664 {
        98 - voltage * 50 / 1000
    } else if voltage > 411 {
        112 - voltage * 70 / 1000
    } else {
        139 - voltage * 130 / 1000
    }
}

pub fn voltage_to_temp(voltage: u32) -> (temp: i32)
    requires
        voltage <= i32::MAX,
    ensures
        temp == temp_of(voltage as int),
        0 <= temp <= 139,
{
    if voltage > 2363 {
        0
    } else if voltage > 1352 {
        (76 - voltage * 32 / 1000) as i32
    } else if voltage > 971 {
        (87 - voltage * 40 / 1000) as i32
    } else if voltage > 664 {
        (98 - voltage * 50 / 1000) as i32
    } else if voltage > 411 {
        (112 - voltage * 70 / 1000) as i32
    } else {
        (139 - voltage * 130 / 1000) as i32
    }
}

} // verus!
