use light_control::control::Action;
use light_control::control::ButtonState;
use light_control::control::Inputs;
use light_control::control::LightControl;
use light_control::control::State;
use light_control::control::StatefulButton;
use light_control::control::calc_throttle;
use light_control::control::power_level;
use light_control::control::pwms;
use light_control::control::ANIM_DURATION;
use light_control::control::BUTTON_CHECK_PERIOD;
use light_control::control::MAX_POWER_LEVEL;
use light_control::edt::Event;
use light_control::edt::EDT;

/// Test harness: a controller wired to in-memory collaborators, with the
/// driver loop the tests advance virtual time through.
struct Bench {
    lc: LightControl,
    inputs: Inputs,
}

impl Bench {
    fn new() -> Bench {
        let mut lc = LightControl::new();
        let inputs = Inputs {
            plus_down: false,
            minus_down: false,
            toggle_down: false,
            temperature: 20,
            battery_mv: 8000,
        };
        lc.start(&inputs);
        lc.jump_start();
        let mut bench = Bench { lc, inputs };
        bench.advance_time(1000);
        bench
    }

    /// The outer driver loop: polls the timer, dispatches due actions
    /// against the current input snapshot, and stops once the wanted
    /// stretch of virtual time is spent.
    fn advance_time(&mut self, time: u32) {
        let target = self.lc.edt.now + time;
        loop {
            match self.lc.poll() {
                Event::Execute { msg } => {
                    let inputs = self.inputs;
                    self.lc.process_message(msg, &inputs);
                }
                Event::Wait { ms: _ } => {
                    if self.lc.edt.now > target {
                        self.lc.rewind_now(target);
                        break;
                    }
                }
                Event::Halt => {
                    break;
                }
            }
        }
    }

    fn low_beam(&self) -> u32 {
        self.lc.led.power_output
    }

    fn high_beam(&self) -> u32 {
        self.lc.led_high.power_output
    }

    fn press_plus(&mut self) {
        self.inputs.plus_down = true;
    }

    fn release_plus(&mut self) {
        self.inputs.plus_down = false;
    }

    fn press_minus(&mut self) {
        self.inputs.minus_down = true;
    }

    fn release_minus(&mut self) {
        self.inputs.minus_down = false;
    }

    fn press_toggle(&mut self) {
        self.inputs.toggle_down = true;
    }

    fn release_toggle(&mut self) {
        self.inputs.toggle_down = false;
    }

    fn click_plus(&mut self) {
        self.advance_time(BUTTON_CHECK_PERIOD);
        self.press_plus();
        self.advance_time(BUTTON_CHECK_PERIOD);
        self.release_plus();
        self.advance_time(BUTTON_CHECK_PERIOD);
        self.advance_time(ANIM_DURATION);
    }

    fn click_minus(&mut self) {
        self.advance_time(BUTTON_CHECK_PERIOD);
        self.press_minus();
        self.advance_time(BUTTON_CHECK_PERIOD);
        self.release_minus();
        self.advance_time(BUTTON_CHECK_PERIOD);
        self.advance_time(ANIM_DURATION);
    }

    fn click_toggle(&mut self) {
        self.advance_time(BUTTON_CHECK_PERIOD);
        self.press_toggle();
        self.advance_time(BUTTON_CHECK_PERIOD);
        self.release_toggle();
        self.advance_time(BUTTON_CHECK_PERIOD);
        self.advance_time(ANIM_DURATION);
    }

    fn long_click_plus(&mut self) {
        self.advance_time(BUTTON_CHECK_PERIOD);
        self.press_plus();
        self.advance_time(1500);
        self.release_plus();
        self.advance_time(BUTTON_CHECK_PERIOD);
        self.advance_time(ANIM_DURATION);
    }

    fn long_click_minus(&mut self) {
        self.advance_time(BUTTON_CHECK_PERIOD);
        self.press_minus();
        self.advance_time(1500);
        self.release_minus();
        self.advance_time(BUTTON_CHECK_PERIOD);
        self.advance_time(ANIM_DURATION);
    }

    fn long_click_toggle(&mut self) {
        self.advance_time(BUTTON_CHECK_PERIOD);
        self.press_toggle();
        self.advance_time(1500);
        self.release_toggle();
        self.advance_time(BUTTON_CHECK_PERIOD);
        self.advance_time(ANIM_DURATION);
    }
}

fn low(i: usize) -> u32 {
    assert!(i <= MAX_POWER_LEVEL, "Test level exceeds available levels: {}", i);
    power_level(i) as u32
}

// the low-beam, high-beam-fill and high-beam tuning tables coincide
fn low_aux(i: usize) -> u32 {
    low(i)
}

fn high(i: usize) -> u32 {
    low(i)
}

#[test]
fn edt_queue_size_is_below_1kb() {
    assert!(std::mem::size_of::<EDT<Action>>() < 500);
}

#[test]
fn starting_brightness() {
    let mut bench = Bench::new();
    // startup animation
    bench.advance_time(2000);
    assert_eq!(bench.low_beam(), low(3));
}

#[test]
fn plus_click_increases_brightness() {
    let mut bench = Bench::new();
    bench.click_plus();
    assert_eq!(bench.low_beam(), low(4));
}

#[test]
fn plus_click_increases_brightness_until_max_reached() {
    let mut bench = Bench::new();
    for _ in 0..3 {
        bench.click_plus();
    }
    assert_eq!(bench.low_beam(), low(MAX_POWER_LEVEL));
}

#[test]
fn minus_click_decreases_brightness() {
    let mut bench = Bench::new();
    // given brightness is max
    bench.click_plus();
    assert_eq!(bench.low_beam(), low(4));

    bench.click_minus();
    assert_eq!(bench.low_beam(), low(3));
    bench.click_minus();
    assert_eq!(bench.low_beam(), low(2));
    bench.click_minus();
    assert_eq!(bench.low_beam(), low(1));
}

#[test]
fn minus_click_decreases_brightness_until_min_reached() {
    let mut bench = Bench::new();
    bench.click_minus();
    bench.click_minus();
    bench.click_minus();
    bench.click_minus();
    assert_eq!(bench.low_beam(), low(1));
}

/// Clicks here are below the longclick threshold, but they are longer than
/// usual clicks.
#[test]
fn longer_clicks_have_effect_when_released() {
    let mut bench = Bench::new();
    // startup animation
    bench.advance_time(2000);
    assert_eq!(bench.low_beam(), low(3));
    bench.press_minus();
    bench.advance_time(700);
    bench.release_minus();
    bench.advance_time(100 + ANIM_DURATION);
    assert_eq!(bench.low_beam(), low(2));

    bench.press_plus();
    bench.advance_time(700);
    bench.release_plus();
    bench.advance_time(100 + ANIM_DURATION);
    assert_eq!(bench.low_beam(), low(3));
}

#[test]
fn long_clicks_are_nop() {
    let mut bench = Bench::new();
    // startup animation
    bench.advance_time(2000);
    assert_eq!(bench.low_beam(), low(3));
    bench.long_click_plus();
    bench.long_click_minus();
    bench.long_click_toggle();
    assert_eq!(bench.low_beam(), low(3));
}

#[test]
fn toggle_click_switches_on_high_beam() {
    let mut bench = Bench::new();
    // startup animation
    bench.advance_time(2000);
    assert_eq!(bench.low_beam(), low(3));
    bench.click_toggle();
    assert_eq!(bench.low_beam(), low_aux(3));
    assert_eq!(bench.high_beam(), high(3));
}

#[test]
fn plus_increases_high_beam_brightness() {
    let mut bench = Bench::new();
    // startup animation
    bench.advance_time(2000);
    bench.click_toggle();
    bench.click_plus();
    assert_eq!(bench.low_beam(), low_aux(4));
    assert_eq!(bench.high_beam(), high(4));
}

#[test]
fn minus_decreases_high_beam_brightness() {
    let mut bench = Bench::new();
    // startup animation
    bench.advance_time(2000);
    bench.click_toggle();
    bench.click_minus();
    bench.click_minus();
    bench.click_minus();
    bench.click_minus();
    assert_eq!(bench.low_beam(), low_aux(1));
    assert_eq!(bench.high_beam(), high(1));
}

#[test]
fn debounce_long_click_fires_on_the_threshold_tick_only() {
    let mut button = StatefulButton::create();
    // the hold accumulates threshold / period ticks without an event
    for _ in 0..20 {
        assert!(matches!(button.check_state(true, 50), ButtonState::Nothing));
    }
    // the tick that starts with the hold at the threshold emits the long
    // click
    assert!(matches!(button.check_state(true, 50), ButtonState::LongClicked));
    // and never again while still held
    for _ in 0..40 {
        assert!(matches!(button.check_state(true, 50), ButtonState::Nothing));
    }
    // released after the threshold: no click either
    assert!(matches!(button.check_state(false, 50), ButtonState::Nothing));
}

#[test]
fn debounce_release_just_before_the_threshold_clicks() {
    let mut button = StatefulButton::create();
    for _ in 0..19 {
        button.check_state(true, 50);
    }
    // the hold stands one tick short of the threshold
    assert!(matches!(button.check_state(false, 50), ButtonState::Clicked));
    // a release with no hold accumulated is nothing
    assert!(matches!(button.check_state(false, 50), ButtonState::Nothing));
}

#[test]
fn throttle_decays_with_heat_and_empty_battery() {
    assert_eq!(calc_throttle(20, 100), 100);
    assert_eq!(calc_throttle(61, 100), 96);
    assert_eq!(calc_throttle(70, 100), 60);
    assert_eq!(calc_throttle(80, 100), 20);
    assert_eq!(calc_throttle(81, 100), 1);
    assert_eq!(calc_throttle(20, 20), 100);
    assert_eq!(calc_throttle(20, 10), 50);
    assert_eq!(calc_throttle(20, 0), 0);
    assert_eq!(calc_throttle(70, 10), 50);
}

#[test]
fn channel_targets_follow_table_and_throttle() {
    let low_only = pwms(&State { power_level: 3, high_beam: false, throttle: 100 });
    assert_eq!(low_only, (65, 0));
    let throttled = pwms(&State { power_level: 3, high_beam: false, throttle: 50 });
    assert_eq!(throttled, (32, 0));
    let with_high = pwms(&State { power_level: 4, high_beam: true, throttle: 100 });
    assert_eq!(with_high, (85, 85));
}

#[test]
fn throttling_dims_the_light() {
    let mut bench = Bench::new();
    bench.advance_time(2000);
    assert_eq!(bench.low_beam(), low(3));
    // overheated: throttle drops to 340 - 4 * 70 = 60 percent
    bench.inputs.temperature = 70;
    bench.advance_time(500 + ANIM_DURATION);
    assert_eq!(bench.low_beam(), 65 * 60 / 100);
}

/// Drives one full ramp chain through the dispatcher and checks it lands
/// exactly on its target, in both directions.
#[test]
fn animation_lands_exactly_on_target() {
    let inputs = Inputs {
        plus_down: false,
        minus_down: false,
        toggle_down: false,
        temperature: 20,
        battery_mv: 8000,
    };
    let mut lc = LightControl::new();
    lc.process_message(
        Action::SetPwm { start: 17, end: 85, i: 0, high_beam: false },
        &inputs,
    );
    run_to_halt(&mut lc, &inputs);
    assert_eq!(lc.led.power_output, 85);

    lc.process_message(
        Action::SetPwm { start: 85, end: 3, i: 0, high_beam: false },
        &inputs,
    );
    run_to_halt(&mut lc, &inputs);
    assert_eq!(lc.led.power_output, 3);
}

fn run_to_halt(lc: &mut LightControl, inputs: &Inputs) {
    loop {
        match lc.poll() {
            Event::Execute { msg } => lc.process_message(msg, inputs),
            Event::Wait { ms: _ } => {}
            Event::Halt => break,
        }
    }
}

#[test]
fn status_indication_escalates_when_hot() {
    let hot = Inputs {
        plus_down: false,
        minus_down: false,
        toggle_down: false,
        temperature: 70,
        battery_mv: 8000,
    };
    let mut lc = LightControl::new();
    lc.process_message(Action::IndicateBatteryAndTemperature, &hot);
    // white flutter at once, and the next indication already in 3 seconds
    assert_eq!(lc.rgb.rgb, 7);
    assert!(lc.edt.queue.iter().any(|m| m.when == 50
        && matches!(m.payload, Action::Blink { color: 7, blinks: 13, period: 50 })));
    assert!(lc.edt.queue.iter().any(|m| m.when == 3000
        && matches!(m.payload, Action::IndicateBatteryAndTemperature)));
}

/// End-to-end: from the default power level, a simulated plus click raises
/// the power level by exactly one step, starts exactly one slow blink in
/// the battery's color, and ramps the low beam smoothly onto the new
/// table value.
#[test]
fn plus_click_end_to_end() {
    let mut bench = Bench::new();
    bench.advance_time(2000);
    assert_eq!(bench.lc.state.power_level, 3);
    assert_eq!(bench.low_beam(), low(3));

    bench.advance_time(BUTTON_CHECK_PERIOD);
    bench.press_plus();
    bench.advance_time(BUTTON_CHECK_PERIOD);
    bench.release_plus();
    bench.advance_time(BUTTON_CHECK_PERIOD);

    // the click is in: one step up, one slow green blink pending, both
    // channels re-targeted
    assert_eq!(bench.lc.state.power_level, 4);
    assert_eq!(bench.lc.rgb.rgb, 2);
    let blinks = bench
        .lc
        .edt
        .queue
        .iter()
        .filter(|m| matches!(m.payload, Action::Blink { .. }))
        .count();
    assert_eq!(blinks, 1);
    let ramps = bench
        .lc
        .edt
        .queue
        .iter()
        .filter(|m| matches!(m.payload, Action::SetPwm { .. }))
        .count();
    assert_eq!(ramps, 2);

    // mid-ramp the low beam sits strictly between the old and new targets
    bench.advance_time(250);
    assert!(low(3) < bench.low_beam() && bench.low_beam() < low(4));

    // after the full ramp it lands exactly on the new table value
    bench.advance_time(ANIM_DURATION);
    assert_eq!(bench.low_beam(), low(4));
    assert_eq!(bench.lc.state.power_level, 4);
}
