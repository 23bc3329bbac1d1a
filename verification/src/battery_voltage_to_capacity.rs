//! Battery voltage to remaining-capacity curve for a two-cell li-ion pack,
//! piecewise linear between well-known discharge points.

use vstd::prelude::*;

verus! {

/// Remaining capacity, in percent, for a pack voltage in millivolts.
pub open spec fn capacity_of(mv: int) -> int {
    if mv > 8300 {
        100
    } else if mv >= 7700 {
        (mv - 7700) * 50 / 1000 + 70
    } else if mv >= 7460 {
        (mv - 7460) * 120 / 1000 + 45
    } else if mv >= 7360 {
        (mv - 7360) * 240 / 1000 + 20
    } else if mv >= 7280 {
        (mv - 7280) * 90 / 1000 + 13
    } else {
        (mv - 6000) * 8 / 1000
    }
}

pub fn battery_voltage_to_capacity(battery_voltage_mv: u32) -> (capacity: u32)
    requires
        battery_voltage_mv >= 6000,
    ensures
        capacity == capacity_of(battery_voltage_mv as int),
        capacity <= 100,
{
    if battery_voltage_mv > 8300 {
        100
    } else if battery_voltage_mv >= 7700 {
        (battery_voltage_mv - 7700) * 50 / 1000 + 70
    } else if battery_voltage_mv >= 7460 {
        (battery_voltage_mv - 7460) * 120 / 1000 + 45
    } else if battery_voltage_mv >= 7360 {
        (battery_voltage_mv - 7360) * 240 / 1000 + 20
    } else if battery_voltage_mv >= 7280 {
        (battery_voltage_mv - 7280) * 90 / 1000 + 13
    } else {
        (battery_voltage_mv - 6000) * 8 / 1000
    }
}

} // verus!
