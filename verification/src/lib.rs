//! Decision core of a battery-powered flashlight controller: a deterministic
//! event-driven scheduler (`edt`), a debounced-button and light-control state
//! machine (`control`), and the pure lookup curves the policy is built on.

pub mod battery_voltage_to_capacity;
pub mod bsp;
pub mod control;
pub mod edt;
pub mod perceived_light_math;
pub mod power_dissipation;
pub mod pwm_led;
pub mod voltage_to_temp;
