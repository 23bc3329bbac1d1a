//! Helpers for the host-side power simulation: the inverse of the battery
//! capacity curve, used to pick a pack voltage that shows a wanted capacity.

use vstd::prelude::*;
use crate::battery_voltage_to_capacity::battery_voltage_to_capacity;
use crate::battery_voltage_to_capacity::capacity_of;

verus! {

/// The first of the probed pack voltages 6000 + 100 k, ..., 8400 mV whose
/// capacity reading reaches `capacity`; zero when none does.
pub open spec fn capacity_search(capacity: int, k: nat) -> int
    decreases (if k < 25 { (25 - k) as nat } else { 0 }),
{
    if k >= 25 {
        0
    } else if capacity_of(6000 + 100 * (k as int)) >= capacity {
        6000 + 100 * (k as int)
    } else {
        capacity_search(capacity, k + 1)
    }
}

/// Lowest probed pack voltage whose capacity reading reaches `capacity`,
/// or zero when even a full pack reads less.
pub fn battery_capacity(capacity: u32) -> (voltage: u32)
    ensures
        voltage == capacity_search(capacity as int, 0),
{
    let ghost mut k: nat = 0;
    let mut v: u32 = 6000;
    while v < 8500
        invariant
            v == 6000 + 100 * k,
            k <= 25,
            capacity_search(capacity as int, 0) == capacity_search(capacity as int, k),
        decreases 8500 - v,
    {
        if battery_voltage_to_capacity(v) >= capacity {
            return v;
        }
        v += 100;
        proof {
            k = k + 1;
        }
    }
    0
}

} // verus!
