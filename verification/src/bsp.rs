//! Board-support capabilities the control core drives: button pins, the
//! dimmable power light channels, and the indicator light, together with
//! the in-memory implementations the core and the simulators use.

use vstd::prelude::*;

verus! {

pub const RED: u8 = 0x4;

pub const GREEN: u8 = 0x2;

pub const BLUE: u8 = 0x1;

/// Full scale of a dimmable channel's duty cycle.
pub const MAX: u32 = 100;

/// A pin (of a button) which may be down (tied to the ground) or up
/// (floating pin).
pub trait Pin {
    spec fn spec_is_down(&self) -> bool;

    fn is_down(&self) -> (down: bool)
        ensures
            down == self.spec_is_down(),
    ;
}

/// Power light channel of the flashlight; the value is its duty cycle,
/// between 0 and `MAX`.
pub trait Led {
    spec fn duty(&self) -> u32;

    fn set(&mut self, duty_cycle: u32)
        requires
            duty_cycle <= MAX,
        ensures
            final(self).duty() == duty_cycle,
    ;

    fn get(&self) -> (duty_cycle: u32)
        ensures
            duty_cycle == self.duty(),
    ;
}

/// Indicator light with three primaries, addressed as a bitmask of `RED`,
/// `GREEN` and `BLUE`.
pub trait Rgb {
    spec fn color(&self) -> u8;

    fn set_rgb(&mut self, rgb: u8)
        ensures
            final(self).color() == rgb,
    ;

    fn get_rgb(&self) -> (rgb: u8)
        ensures
            rgb == self.color(),
    ;
}

/// A button that is never pressed.
pub struct NopButton {}

impl Pin for NopButton {
    open spec fn spec_is_down(&self) -> bool {
        false
    }

    fn is_down(&self) -> (down: bool) {
        false
    }
}

/// Light channel which resides in memory, for simulation or testing.
pub struct DummyLed {
    pub power_output: u32,
}

impl DummyLed {
    /// Factory function to create a dummy LED.
    pub fn create(pwm: u32) -> (led: DummyLed)
        requires
            pwm <= MAX,
        ensures
            led.duty() == pwm,
    {
        DummyLed { power_output: pwm }
    }
}

impl Led for DummyLed {
    open spec fn duty(&self) -> u32 {
        self.power_output
    }

    fn set(&mut self, duty_cycle: u32) {
        self.power_output = duty_cycle;
    }

    fn get(&self) -> (duty_cycle: u32) {
        self.power_output
    }
}

/// Indicator light which resides in memory, for simulation or testing.
pub struct DummyRgb {
    pub rgb: u8,
}

impl DummyRgb {
    /// Factory function to create a dummy indicator light.
    pub fn create() -> (rgb: DummyRgb)
        ensures
            rgb.color() == 0,
    {
        DummyRgb { rgb: 0 }
    }
}

impl Rgb for DummyRgb {
    open spec fn color(&self) -> u8 {
        self.rgb
    }

    fn set_rgb(&mut self, rgb: u8) {
        self.rgb = rgb;
    }

    fn get_rgb(&self) -> (rgb: u8) {
        self.rgb
    }
}

} // verus!
