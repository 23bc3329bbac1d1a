//! Perceptually corrected light channel: maps the linear 0..=100
//! brightness scale through the perceived-lightness curve onto raw timer
//! duty values. What raw value to put on the hardware timer is computed
//! here; writing it to the timer peripheral is the driver's business.

use vstd::prelude::*;
use crate::perceived_light_math::fill_pwm_duty_cycle_values;
use crate::perceived_light_math::perceived_duty;

verus! {

/// A light channel driven through a hardware timer whose duty range runs
/// up to some board-specific maximum.
pub struct PwmLed {
    pub duties: Vec<u16>,
    pub state: u32,
}

impl PwmLed {
    /// One raw duty value per brightness level, and a brightness within
    /// the 0..=100 scale.
    pub open spec fn wf(&self) -> bool {
        &&& self.duties@.len() == 101
        &&& self.state <= 100
    }

    /// The duty table follows the perceived-lightness curve up to the
    /// timer's maximum duty.
    pub open spec fn curve_ok(&self, max_duty: u16) -> bool {
        forall|i: int| 0 <= i < 101 ==> self.duties@[i] == perceived_duty(0, max_duty as int, i)
    }

    /// Builds the channel for a timer with the given maximum duty, dark.
    pub fn create(max_duty: u16) -> (led: PwmLed)
        ensures
            led.wf(),
            led.state == 0,
            led.curve_ok(max_duty),
    {
        let mut duties: Vec<u16> = Vec::new();
        let mut i: usize = 0;
        while i < 101
            invariant
                duties@.len() == i,
                i <= 101,
            decreases 101 - i,
        {
            duties.push(0);
            i += 1;
        }
        fill_pwm_duty_cycle_values(&mut duties, 0, max_duty);
        PwmLed { duties, state: 0 }
    }

    /// Remembers the brightness and hands back the raw duty value the
    /// timer should run at for it.
    pub fn set(&mut self, pwm: u32) -> (raw_duty: u16)
        requires
            old(self).wf(),
            pwm <= 100,
        ensures
            final(self).wf(),
            final(self).state == pwm,
            final(self).duties == old(self).duties,
            raw_duty == old(self).duties@[pwm as int],
    {
        self.state = pwm;
        self.duties[pwm as usize]
    }

    pub fn get(&self) -> (pwm: u32)
        ensures
            pwm == self.state,
    {
        self.state
    }
}

} // verus!
