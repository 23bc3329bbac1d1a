//! The light-control state machine: debounced button classification, the
//! brightness/high-beam/throttle state, blink feedback, and the smooth
//! channel animations, all driven through the event-driven timer.

use vstd::prelude::*;
use crate::battery_voltage_to_capacity::battery_voltage_to_capacity;
use crate::battery_voltage_to_capacity::capacity_of;
use crate::bsp::BLUE;
use crate::bsp::DummyLed;
use crate::bsp::DummyRgb;
use crate::bsp::GREEN;
use crate::bsp::Led;
use crate::bsp::RED;
use crate::bsp::Rgb;
use crate::edt::head_idx;
use crate::edt::lemma_filter_equivalent;
use crate::edt::lemma_head_idx;
use crate::edt::lemma_next_order;
use crate::edt::lemma_next_order_below;
use crate::edt::lemma_orders_below_subset;
use crate::edt::next_order;
use crate::edt::orders_below;
use crate::edt::Msg;
use crate::edt::Event;
use crate::edt::Predicate;
use crate::edt::EDT;

verus! {

/// What the controller can ask the timer to run later.
#[derive(Clone, Copy, PartialEq, Eq, Structural, Debug)]
pub enum Action {
    Blink { color: u8, blinks: u8, period: u16 },
    CheckButtons,
    SetPwm { start: u8, end: u8, i: usize, high_beam: bool },
    CheckBatteryAndTemperature,
    IndicateBatteryAndTemperature,
}

/// How often the button pins are sampled, in milliseconds.
pub const BUTTON_CHECK_PERIOD: u32 = 50;

/// Held for exactly this many milliseconds counts as a long click.
pub const LONG_CLICK_THRESHOLD: u32 = 1000;

/// Brightness table index the controller jump-starts into.
pub const POWER_LEVEL_INIT: usize = 3;

/// Largest brightness table index.
pub const MAX_POWER_LEVEL: usize = 4;

/// How long a brightness ramp takes, in milliseconds.
pub const ANIM_DURATION: u32 = 500;

/// Number of steps a brightness ramp is cut into (60 per second).
pub const ANIM_SIZE: usize = 30;

/// Milliseconds between two ramp steps: `ANIM_DURATION / ANIM_SIZE`.
pub const ANIM_STEP: u32 = 16;

/// The brightness table: channel duty for each power level.
pub open spec fn power_level_of(i: int) -> int {
    if i <= 0 {
        0
    } else if i == 1 {
        15
    } else if i == 2 {
        40
    } else if i == 3 {
        65
    } else {
        85
    }
}

/// Looks the brightness table up by power level.
pub fn power_level(i: usize) -> (level: u8)
    requires
        i <= MAX_POWER_LEVEL,
    ensures
        level == power_level_of(i as int),
        level <= 85,
{
    if i == 0 {
        0
    } else if i == 1 {
        15
    } else if i == 2 {
        40
    } else if i == 3 {
        65
    } else {
        85
    }
}

/// What one debounce step classifies a button press as.
#[derive(Clone, Copy, PartialEq, Eq, Structural, Debug)]
pub enum ButtonState {
    Nothing,
    Clicked,
    LongClicked,
}

/// The event one debounce step emits, given how long the button had been
/// held before the step and whether the pin reads down now: a long click
/// fires on the one tick where the hold first equals the threshold, a
/// click on release after more than a tick of bounce-free hold.
pub open spec fn debounce_event(held: u32, pin_down: bool) -> ButtonState {
    if pin_down && held == LONG_CLICK_THRESHOLD {
        ButtonState::LongClicked
    } else if !pin_down && 1 < held < LONG_CLICK_THRESHOLD {
        ButtonState::Clicked
    } else {
        ButtonState::Nothing
    }
}

/// The hold duration after one debounce step: grown by the elapsed time
/// while the pin reads down (saturating at the clock type's limit), reset
/// the instant it reads up.
pub open spec fn hold_after(held: u32, pin_down: bool, elapsed: u32) -> u32 {
    if pin_down {
        if held + elapsed <= u32::MAX {
            (held + elapsed) as u32
        } else {
            u32::MAX
        }
    } else {
        0
    }
}

/// Button which remembers how long it has been held down.
pub struct StatefulButton {
    pub hold_time: u32,
}

impl StatefulButton {
    pub fn create() -> (button: StatefulButton)
        ensures
            button.hold_time == 0,
    {
        StatefulButton { hold_time: 0 }
    }

    /// One debounce step: accumulates or resets the hold duration from the
    /// current pin reading and classifies the press.
    pub fn check_state(&mut self, pin_down: bool, elapsed_time: u32) -> (event: ButtonState)
        ensures
            final(self).hold_time == hold_after(old(self).hold_time, pin_down, elapsed_time),
            event == debounce_event(old(self).hold_time, pin_down),
    {
        let held = self.hold_time;
        self.hold_time = if pin_down {
            if held <= u32::MAX - elapsed_time {
                held + elapsed_time
            } else {
                u32::MAX
            }
        } else {
            0
        };
        if pin_down && held == LONG_CLICK_THRESHOLD {
            ButtonState::LongClicked
        } else if !pin_down && held > 1 && held < LONG_CLICK_THRESHOLD {
            ButtonState::Clicked
        } else {
            ButtonState::Nothing
        }
    }
}

/// Hold duration after `n` debounce steps of `elapsed` each with the pin
/// held down throughout, starting from a released button.
pub open spec fn held_for(n: nat, elapsed: u32) -> int
    decreases n,
{
    if n == 0 {
        0
    } else {
        let prev = held_for((n - 1) as nat, elapsed);
        if prev + elapsed <= u32::MAX {
            prev + elapsed
        } else {
            u32::MAX as int
        }
    }
}

/// A button held down from rest and sampled every `BUTTON_CHECK_PERIOD`
/// emits `LongClicked` on exactly one tick: the one that starts with the
/// hold at `LONG_CLICK_THRESHOLD`, which is tick number
/// `LONG_CLICK_THRESHOLD / BUTTON_CHECK_PERIOD + 1`; every other tick of
/// the hold emits `Nothing`.
pub proof fn lemma_long_click_fires_once(n: nat)
    ensures
        held_for(n, BUTTON_CHECK_PERIOD) == if n * BUTTON_CHECK_PERIOD <= u32::MAX {
            n * BUTTON_CHECK_PERIOD
        } else {
            u32::MAX as int
        },
        debounce_event(held_for(n, BUTTON_CHECK_PERIOD) as u32, true) == (
        if n == LONG_CLICK_THRESHOLD / BUTTON_CHECK_PERIOD {
            ButtonState::LongClicked
        } else {
            ButtonState::Nothing
        }),
    decreases n,
{
    if n > 0 {
        lemma_long_click_fires_once((n - 1) as nat);
        assert((n - 1) * BUTTON_CHECK_PERIOD + BUTTON_CHECK_PERIOD == n * BUTTON_CHECK_PERIOD)
            by (nonlinear_arith);
        assert(n * BUTTON_CHECK_PERIOD >= (n - 1) * BUTTON_CHECK_PERIOD) by (nonlinear_arith);
    }
}

/// A held button never emits `Clicked`, and a release after the hold first
/// reached the threshold never emits `Clicked` either.
pub proof fn lemma_debounce_boundary(held: u32)
    ensures
        forall|down: bool| down ==> debounce_event(held, down) != ButtonState::Clicked,
        held >= LONG_CLICK_THRESHOLD ==> debounce_event(held, false) == ButtonState::Nothing,
        1 < held < LONG_CLICK_THRESHOLD ==> debounce_event(held, false) == ButtonState::Clicked,
{
}

/// The multiplicative derating applied to brightness targets, in percent:
/// full power in the comfortable range, decaying sharply above the heat
/// threshold and near an empty battery, whichever bites harder.
pub open spec fn throttle_of(temperature: int, battery_capacity: int) -> int {
    let temp_throttle: int = if temperature > 80 {
        1
    } else if temperature > 60 {
        340 - temperature * 4
    } else {
        100
    };
    let bat_throttle: int = if battery_capacity <= 20 {
        battery_capacity * 5
    } else {
        100
    };
    if bat_throttle < temp_throttle {
        bat_throttle
    } else {
        temp_throttle
    }
}

pub fn calc_throttle(temperature: i32, battery_capacity: u32) -> (throttle: u32)
    requires
        battery_capacity <= 100,
    ensures
        throttle == throttle_of(temperature as int, battery_capacity as int),
        throttle <= 100,
{
    let temp_throttle: u32 = if temperature > 80 {
        1
    } else if temperature > 60 {
        (340 - temperature * 4) as u32
    } else {
        100
    };
    let bat_throttle: u32 = if battery_capacity <= 20 {
        battery_capacity * 5
    } else {
        100
    };
    if bat_throttle < temp_throttle {
        bat_throttle
    } else {
        temp_throttle
    }
}

/// Throttle never rises as the temperature climbs.
pub proof fn lemma_throttle_monotone_in_temperature(t1: int, t2: int, capacity: int)
    requires
        t1 <= t2,
    ensures
        throttle_of(t2, capacity) <= throttle_of(t1, capacity),
{
}

/// Throttle never rises as the battery capacity falls.
pub proof fn lemma_throttle_monotone_in_capacity(temperature: int, c1: int, c2: int)
    requires
        c1 <= c2,
    ensures
        throttle_of(temperature, c1) <= throttle_of(temperature, c2),
{
}

/// What the lights should currently show: an index into the brightness
/// table, whether the high beam is on, and the throttle derating.
#[derive(Clone, Copy, PartialEq, Eq, Structural, Debug)]
pub struct State {
    pub power_level: usize,
    pub high_beam: bool,
    pub throttle: u32,
}

/// Low-beam channel target for a state: the fill table value scaled by
/// the throttle. The low-beam and high-beam-fill tuning tables currently
/// coincide, so the target does not depend on the high beam.
pub open spec fn pwm_low_of(s: State) -> int {
    power_level_of(s.power_level as int) * s.throttle / 100
}

/// High-beam channel target for a state: dark unless the high beam is on.
pub open spec fn pwm_high_of(s: State) -> int {
    if s.high_beam {
        power_level_of(s.power_level as int) * s.throttle / 100
    } else {
        0
    }
}

/// Both channel targets for a state, low beam first.
pub fn pwms(state: &State) -> (targets: (u8, u8))
    requires
        state.power_level <= MAX_POWER_LEVEL,
        state.throttle <= 100,
    ensures
        targets.0 == pwm_low_of(*state),
        targets.1 == pwm_high_of(*state),
        targets.0 <= 100,
        targets.1 <= 100,
{
    let level: u32 = power_level(state.power_level) as u32;
    proof {
        assert(level * state.throttle <= 8500) by (nonlinear_arith)
            requires
                level <= 85,
                state.throttle <= 100,
        ;
    }
    if state.high_beam {
        ((level * state.throttle / 100) as u8, (level * state.throttle / 100) as u8)
    } else {
        ((level * state.throttle / 100) as u8, 0)
    }
}

/// The channel duty `i` steps into a ramp from `start` to `end`: the linear
/// interpolation `start + (end - start) * i / ANIM_SIZE`, computed without
/// ever leaving the duty range.
pub open spec fn anim_value(start: int, end: int, i: int) -> int {
    if end >= start {
        start + (end - start) * i / (ANIM_SIZE as int)
    } else {
        start - (start - end) * i / (ANIM_SIZE as int)
    }
}

/// A nonnegative span scaled by `i / n` stays between zero and the span.
proof fn lemma_fraction_bounded(span: int, i: int, n: int)
    requires
        0 <= span,
        0 <= i <= n,
        1 <= n,
    ensures
        0 <= span * i / n <= span,
{
    vstd::arithmetic::mul::lemma_mul_inequality(i, n, span);
    vstd::arithmetic::mul::lemma_mul_is_commutative(i, span);
    vstd::arithmetic::mul::lemma_mul_is_commutative(n, span);
    vstd::arithmetic::div_mod::lemma_div_is_ordered(span * i, span * n, n);
    vstd::arithmetic::div_mod::lemma_div_multiples_vanish(span, n);
    vstd::arithmetic::mul::lemma_mul_nonnegative(span, i);
    vstd::arithmetic::div_mod::lemma_div_pos_is_pos(span * i, n);
}

/// Every ramp step stays inside the duty range spanned by its endpoints.
pub proof fn lemma_anim_value_bounded(start: int, end: int, i: int)
    requires
        0 <= start <= 100,
        0 <= end <= 100,
        0 <= i <= ANIM_SIZE,
    ensures
        0 <= anim_value(start, end, i) <= 100,
{
    if end >= start {
        lemma_fraction_bounded(end - start, i, ANIM_SIZE as int);
    } else {
        lemma_fraction_bounded(start - end, i, ANIM_SIZE as int);
    }
}

/// A full ramp lands exactly on its target, whatever it started from, and
/// its first step reproduces the starting value exactly.
pub proof fn lemma_animation_exact(start: int, end: int)
    ensures
        anim_value(start, end, 0) == start,
        anim_value(start, end, ANIM_SIZE as int) == end,
{
    if end >= start {
        vstd::arithmetic::div_mod::lemma_div_multiples_vanish(end - start, ANIM_SIZE as int);
    } else {
        vstd::arithmetic::div_mod::lemma_div_multiples_vanish(start - end, ANIM_SIZE as int);
    }
}

pub open spec fn is_blink(a: Action) -> bool {
    a is Blink
}

pub open spec fn is_set_pwm(a: Action) -> bool {
    a is SetPwm
}

/// Matches the blink-feedback actions, the class cancelled before a new
/// blink sequence starts.
pub struct BlinkMatcher {}

impl Predicate<Action> for BlinkMatcher {
    open spec fn spec_matches(&self, a: Action) -> bool {
        is_blink(a)
    }

    fn matches(&self, a: &Action) -> (r: bool) {
        match a {
            Action::Blink { .. } => true,
            _ => false,
        }
    }
}

/// Matches the animation-step actions, the class cancelled before a new
/// ramp starts.
pub struct SetPwmMatcher {}

impl Predicate<Action> for SetPwmMatcher {
    open spec fn spec_matches(&self, a: Action) -> bool {
        is_set_pwm(a)
    }

    fn matches(&self, a: &Action) -> (r: bool) {
        match a {
            Action::SetPwm { .. } => true,
            _ => false,
        }
    }
}

pub open spec fn without_blinks(q: Seq<Msg<Action>>) -> Seq<Msg<Action>> {
    q.filter(|m: Msg<Action>| !is_blink(m.payload))
}

pub open spec fn without_set_pwm(q: Seq<Msg<Action>>) -> Seq<Msg<Action>> {
    q.filter(|m: Msg<Action>| !is_set_pwm(m.payload))
}

/// A resident action the controller itself could have scheduled; in
/// particular, animation steps stay within the ramp and the duty range.
pub open spec fn action_wf(a: Action) -> bool {
    match a {
        Action::SetPwm { start, end, i, high_beam } => i <= ANIM_SIZE && start <= 100 && end
            <= 100,
        _ => true,
    }
}

pub open spec fn actions_wf(q: Seq<Msg<Action>>) -> bool {
    forall|k: int| 0 <= k < q.len() ==> action_wf((#[trigger] q[k]).payload)
}

proof fn lemma_actions_wf_subset(q1: Seq<Msg<Action>>, q2: Seq<Msg<Action>>)
    requires
        actions_wf(q1),
        forall|k: int| 0 <= k < q2.len() ==> q1.contains(#[trigger] q2[k]),
    ensures
        actions_wf(q2),
{
    assert forall|k: int| 0 <= k < q2.len() implies action_wf((#[trigger] q2[k]).payload) by {
        let j: int = choose|j: int| 0 <= j < q1.len() && q1[j] == q2[k];
        assert(action_wf(q1[j].payload));
    }
}

/// One snapshot of what the collaborators read from the hardware: the
/// three button pins and the two sensors. The driver loop samples these
/// and hands them in; sensor failures are absorbed there into safe
/// defaults before the snapshot is built.
#[derive(Clone, Copy, PartialEq, Eq, Structural, Debug)]
pub struct Inputs {
    pub plus_down: bool,
    pub minus_down: bool,
    pub toggle_down: bool,
    pub temperature: i32,
    pub battery_mv: u32,
}

impl Inputs {
    /// The battery reading is at least the empty-pack voltage; the driver
    /// loop clamps anything lower (or a failed read) up to it.
    pub open spec fn wf(&self) -> bool {
        self.battery_mv >= 6000
    }
}

/// The controller's whole observable state as one mathematical record;
/// every transition below says exactly how one operation rewrites it.
#[verifier::ext_equal]
pub struct Ctl {
    pub hold_plus: u32,
    pub hold_minus: u32,
    pub hold_toggle: u32,
    pub led: u32,
    pub led_high: u32,
    pub rgb: u8,
    pub state: State,
    pub now: u32,
    pub queue: Seq<Msg<Action>>,
}

/// Scheduling an action `delay` from now, with the order stamp the timer
/// hands out.
pub open spec fn scheduled(c: Ctl, delay: u32, a: Action) -> Ctl {
    Ctl {
        queue: c.queue.push(
            Msg {
                when: (c.now + delay) as u32,
                order: next_order(c.queue, (c.now + delay) as u32) as u32,
                payload: a,
            },
        ),
        ..c
    }
}

/// Starting a fresh blink sequence: show the color at once (clearing the
/// high-beam marker), cancel any resident blink actions, and schedule the
/// sequence's first toggle.
pub open spec fn blink_started(c: Ctl, color: u8, times: u8, period: u16) -> Ctl {
    let cleared = Ctl { queue: without_blinks(c.queue), rgb: (c.rgb & !BLUE) | color, ..c };
    scheduled(cleared, period as u32, Action::Blink { color, blinks: times, period })
}

/// One executed blink action: toggle the color, falling back to the
/// high-beam marker when the indicator would go dark while the high beam
/// is on, and reschedule until the sequence is used up.
pub open spec fn blink_stepped(c: Ctl, color: u8, blinks: u8, period: u16) -> Ctl {
    if blinks == 0 {
        c
    } else {
        let toggled = c.rgb ^ color;
        let shown: u8 = if toggled == 0 && c.state.high_beam {
            BLUE
        } else {
            toggled
        };
        scheduled(
            Ctl { rgb: shown, ..c },
            period as u32,
            Action::Blink { color, blinks: (blinks - 1) as u8, period },
        )
    }
}

/// Replacing the control state: cancel the resident ramps, then start one
/// fresh ramp per channel from its current duty to the target the new
/// state derives, and record the new state. The duties themselves only
/// move as the ramp steps execute.
pub open spec fn state_changed(c: Ctl, new_state: State) -> Ctl {
    let cancelled = Ctl { queue: without_set_pwm(c.queue), ..c };
    let low = scheduled(
        cancelled,
        ANIM_STEP,
        Action::SetPwm {
            start: c.led as u8,
            end: pwm_low_of(new_state) as u8,
            i: 1,
            high_beam: false,
        },
    );
    let both = scheduled(
        low,
        ANIM_STEP,
        Action::SetPwm {
            start: c.led_high as u8,
            end: pwm_high_of(new_state) as u8,
            i: 1,
            high_beam: true,
        },
    );
    Ctl { state: new_state, ..both }
}

/// One executed ramp step: put the interpolated duty on the channel and
/// reschedule the next step until the ramp is complete.
pub open spec fn anim_stepped(c: Ctl, start: u8, end: u8, i: int, high_beam: bool) -> Ctl {
    let v = anim_value(start as int, end as int, i) as u32;
    let moved = if high_beam {
        Ctl { led_high: v, ..c }
    } else {
        Ctl { led: v, ..c }
    };
    if i < ANIM_SIZE {
        scheduled(
            moved,
            ANIM_STEP,
            Action::SetPwm { start, end, i: (i + 1) as usize, high_beam },
        )
    } else {
        moved
    }
}

/// Click feedback: one slow blink in the battery's color.
pub open spec fn click_indicated(c: Ctl, capacity: int) -> Ctl {
    blink_started(c, battery_color_of(capacity), 1, 500)
}

/// "Nothing happened" feedback: a quick flutter in the battery's color.
pub open spec fn nop_indicated(c: Ctl, capacity: int) -> Ctl {
    blink_started(c, battery_color_of(capacity), 7, 50)
}

/// A plus click: one table step brighter, clamped at the top; at the top
/// the distinct nothing-happened flutter answers instead.
pub open spec fn plus_clicked(c: Ctl, capacity: int) -> Ctl {
    if c.state.power_level < MAX_POWER_LEVEL {
        let ns = State { power_level: (c.state.power_level + 1) as usize, ..c.state };
        click_indicated(state_changed(c, ns), capacity)
    } else {
        nop_indicated(c, capacity)
    }
}

/// A minus click: one table step darker, with a floor one step above
/// dark; at the floor the nothing-happened flutter answers instead.
pub open spec fn minus_clicked(c: Ctl, capacity: int) -> Ctl {
    if c.state.power_level > 1 {
        let ns = State { power_level: (c.state.power_level - 1) as usize, ..c.state };
        click_indicated(state_changed(c, ns), capacity)
    } else {
        nop_indicated(c, capacity)
    }
}

/// A toggle click: flip the high beam, re-derive both channel targets,
/// and show or clear the high-beam marker on the indicator.
pub open spec fn toggle_clicked(c: Ctl) -> Ctl {
    let ns = State { high_beam: !c.state.high_beam, ..c.state };
    let changed = state_changed(c, ns);
    Ctl {
        rgb: if c.state.high_beam {
            changed.rgb & !BLUE
        } else {
            changed.rgb | BLUE
        },
        ..changed
    }
}

/// One debounce step of the minus button followed by its handler.
pub open spec fn minus_step(c: Ctl, down: bool, capacity: int) -> Ctl {
    let e = debounce_event(c.hold_minus, down);
    let c1 = Ctl { hold_minus: hold_after(c.hold_minus, down, BUTTON_CHECK_PERIOD), ..c };
    match e {
        ButtonState::Clicked => minus_clicked(c1, capacity),
        ButtonState::LongClicked => nop_indicated(c1, capacity),
        ButtonState::Nothing => c1,
    }
}

/// One debounce step of the plus button followed by its handler; long
/// clicks are no-ops on every button.
pub open spec fn plus_step(c: Ctl, down: bool, capacity: int) -> Ctl {
    let e = debounce_event(c.hold_plus, down);
    let c1 = Ctl { hold_plus: hold_after(c.hold_plus, down, BUTTON_CHECK_PERIOD), ..c };
    match e {
        ButtonState::Clicked => plus_clicked(c1, capacity),
        ButtonState::LongClicked => nop_indicated(c1, capacity),
        ButtonState::Nothing => c1,
    }
}

/// One debounce step of the toggle button followed by its handler.
pub open spec fn toggle_step(c: Ctl, down: bool) -> Ctl {
    let e = debounce_event(c.hold_toggle, down);
    let c1 = Ctl { hold_toggle: hold_after(c.hold_toggle, down, BUTTON_CHECK_PERIOD), ..c };
    match e {
        ButtonState::Clicked => toggle_clicked(c1),
        ButtonState::LongClicked => c1,
        ButtonState::Nothing => c1,
    }
}

/// One button-sampling tick: the three buttons debounced and handled in
/// order (minus, plus, toggle), then the next tick scheduled.
pub open spec fn buttons_checked(c: Ctl, inputs: Inputs) -> Ctl {
    let cap = capacity_of(inputs.battery_mv as int);
    let after = toggle_step(
        plus_step(minus_step(c, inputs.minus_down, cap), inputs.plus_down, cap),
        inputs.toggle_down,
    );
    scheduled(after, BUTTON_CHECK_PERIOD, Action::CheckButtons)
}

/// One periodic battery-and-temperature check: re-derive the throttle and,
/// when it moved, re-target both channels; then schedule the next check.
pub open spec fn battery_checked(c: Ctl, inputs: Inputs) -> Ctl {
    let th = throttle_of(inputs.temperature as int, capacity_of(inputs.battery_mv as int));
    let applied = if th != c.state.throttle {
        state_changed(c, State { throttle: th as u32, ..c.state })
    } else {
        c
    };
    scheduled(applied, 500, Action::CheckBatteryAndTemperature)
}

/// Indicator color of one status indication.
pub open spec fn indication_color(temp: int, cap: int) -> u8 {
    if temp > 60 {
        RED | GREEN | BLUE
    } else if cap > 10 {
        battery_color_of(cap)
    } else {
        RED
    }
}

/// Blink count of one status indication.
pub open spec fn indication_blinks(temp: int, cap: int) -> u8 {
    if temp > 60 {
        13
    } else if cap > 10 {
        1
    } else {
        3
    }
}

/// Blink period of one status indication.
pub open spec fn indication_period(temp: int, cap: int) -> u16 {
    if temp > 60 {
        50
    } else if cap > 10 {
        500
    } else {
        100
    }
}

/// Delay until the next status indication: the hotter or emptier, the
/// sooner (and the more urgent the blinking above).
pub open spec fn indication_delay(temp: int, cap: int) -> int {
    if temp > 60 {
        3000
    } else if cap > 40 {
        10000
    } else if cap > 10 {
        cap * 250
    } else if cap >= 5 {
        cap * 130
    } else {
        660
    }
}

/// One periodic status indication: a blink pattern for the battery and
/// temperature tier, and the next indication scheduled after a
/// tier-dependent interval.
pub open spec fn battery_indicated(c: Ctl, inputs: Inputs) -> Ctl {
    let temp = inputs.temperature as int;
    let cap = capacity_of(inputs.battery_mv as int);
    scheduled(
        blink_started(
            c,
            indication_color(temp, cap),
            indication_blinks(temp, cap),
            indication_period(temp, cap),
        ),
        indication_delay(temp, cap) as u32,
        Action::IndicateBatteryAndTemperature,
    )
}

/// One dequeued action dispatched to its handler.
pub open spec fn message_processed(c: Ctl, action: Action, inputs: Inputs) -> Ctl {
    match action {
        Action::CheckButtons => buttons_checked(c, inputs),
        Action::Blink { color, blinks, period } => blink_stepped(c, color, blinks, period),
        Action::SetPwm { start, end, i, high_beam } => anim_stepped(
            c,
            start,
            end,
            i as int,
            high_beam,
        ),
        Action::CheckBatteryAndTemperature => battery_checked(c, inputs),
        Action::IndicateBatteryAndTemperature => battery_indicated(c, inputs),
    }
}

/// The startup sequence: seed the default power level and let the high
/// beam flare up and die down again while the low beam ramps to its
/// table value, all without click feedback.
pub open spec fn jump_started(c: Ctl) -> Ctl {
    let ns = State { power_level: POWER_LEVEL_INIT, high_beam: false, throttle: 100 };
    let seeded = Ctl { state: ns, ..c };
    let flare = scheduled(
        seeded,
        ANIM_STEP,
        Action::SetPwm {
            start: 0,
            end: power_level_of(POWER_LEVEL_INIT as int) as u8,
            i: 0,
            high_beam: true,
        },
    );
    let fade = scheduled(
        flare,
        (ANIM_DURATION * 2) as u32,
        Action::SetPwm {
            start: power_level_of(POWER_LEVEL_INIT as int) as u8,
            end: 0,
            i: 0,
            high_beam: true,
        },
    );
    scheduled(
        fade,
        ANIM_DURATION,
        Action::SetPwm {
            start: 0,
            end: power_level_of(POWER_LEVEL_INIT as int) as u8,
            i: 0,
            high_beam: false,
        },
    )
}

/// The battery's color on the indicator: red when nearly empty, yellow
/// when low, green otherwise.
pub open spec fn battery_color_of(capacity: int) -> u8 {
    if capacity <= 20 {
        RED
    } else if capacity <= 40 {
        RED | GREEN
    } else {
        GREEN
    }
}

/// Control logic: evaluates button states and sensor readings and changes
/// the light intensity. Owns its collaborators: the debounced buttons,
/// the two channels, the indicator, and the event-driven timer.
pub struct LightControl {
    pub plus_pin: StatefulButton,
    pub minus_pin: StatefulButton,
    pub toggle_pin: StatefulButton,
    pub led: DummyLed,
    pub led_high: DummyLed,
    pub rgb: DummyRgb,
    pub edt: EDT<Action>,
    pub state: State,
}

impl LightControl {
    /// The controller's state as the mathematical record the transitions
    /// above rewrite.
    pub open spec fn ctl(&self) -> Ctl {
        Ctl {
            hold_plus: self.plus_pin.hold_time,
            hold_minus: self.minus_pin.hold_time,
            hold_toggle: self.toggle_pin.hold_time,
            led: self.led.duty(),
            led_high: self.led_high.duty(),
            rgb: self.rgb.color(),
            state: self.state,
            now: self.edt.now,
            queue: self.edt.queue@,
        }
    }

    /// Well-formed: the timer is well-formed, every resident action could
    /// have been scheduled by the controller itself, and state and duties
    /// are within their tables and ranges.
    pub open spec fn wf(&self) -> bool {
        &&& self.edt.wf()
        &&& actions_wf(self.edt.queue@)
        &&& self.state.power_level <= MAX_POWER_LEVEL
        &&& self.state.throttle <= 100
        &&& self.led.duty() <= 100
        &&& self.led_high.duty() <= 100
    }

    /// Machine-limit headroom: the virtual clock and the order stamps are
    /// far enough from their type's ceiling for one more operation's worth
    /// of scheduling.
    pub open spec fn headroom(&self) -> bool {
        &&& self.edt.now + 70000 <= u32::MAX
        &&& orders_below(self.edt.queue@, (u32::MAX - 20) as int)
    }

    pub fn new() -> (control: LightControl)
        ensures
            control.wf(),
            control.headroom(),
            control.ctl() == (Ctl {
                hold_plus: 0,
                hold_minus: 0,
                hold_toggle: 0,
                led: 0,
                led_high: 0,
                rgb: 0,
                state: State { power_level: 0, high_beam: false, throttle: 100 },
                now: 0,
                queue: Seq::<Msg<Action>>::empty(),
            }),
    {
        let control = LightControl {
            plus_pin: StatefulButton::create(),
            minus_pin: StatefulButton::create(),
            toggle_pin: StatefulButton::create(),
            led: DummyLed::create(0),
            led_high: DummyLed::create(0),
            rgb: DummyRgb::create(),
            edt: EDT::create(),
            state: State { power_level: 0, high_beam: false, throttle: 100 },
        };
        proof {
            assert(control.ctl() =~= (Ctl {
                hold_plus: 0,
                hold_minus: 0,
                hold_toggle: 0,
                led: 0,
                led_high: 0,
                rgb: 0,
                state: State { power_level: 0, high_beam: false, throttle: 100 },
                now: 0,
                queue: Seq::<Msg<Action>>::empty(),
            }));
        }
        control
    }

    /// Remaining battery capacity for a snapshot, in percent.
    pub fn battery_capacity(&self, inputs: &Inputs) -> (capacity: u32)
        requires
            inputs.wf(),
        ensures
            capacity == capacity_of(inputs.battery_mv as int),
            capacity <= 100,
    {
        battery_voltage_to_capacity(inputs.battery_mv)
    }

    /// The indicator color for a battery capacity.
    pub fn battery_color(battery_capacity: u32) -> (color: u8)
        ensures
            color == battery_color_of(battery_capacity as int),
    {
        if battery_capacity <= 20 {
            RED
        } else if battery_capacity <= 40 {
            RED | GREEN
        } else {
            GREEN
        }
    }

    /// Cancels every resident blink action.
    fn remove_blinks(&mut self)
        requires
            old(self).wf(),
        ensures
            final(self).wf(),
            final(self).ctl() == (Ctl { queue: without_blinks(old(self).ctl().queue), ..old(
                self,
            ).ctl() }),
            forall|k: int|
                0 <= k < final(self).edt.queue@.len() ==> old(self).edt.queue@.contains(
                    #[trigger] final(self).edt.queue@[k],
                ),
    {
        let ghost q = self.edt.queue@;
        self.edt.remove(&(BlinkMatcher {}));
        proof {
            assert(self.edt.queue@ == without_blinks(q)) by {
                lemma_filter_equivalent(
                    q,
                    |m: Msg<Action>| !(BlinkMatcher {}).spec_matches(m.payload),
                    |m: Msg<Action>| !is_blink(m.payload),
                );
            }
            lemma_actions_wf_subset(q, self.edt.queue@);
            assert(final(self).ctl() =~= (Ctl { queue: without_blinks(q), ..old(self).ctl() }));
        }
    }

    /// Starts a blink sequence: shows the color now, cancels any blink
    /// sequence already running, and schedules the first toggle.
    fn blink(&mut self, color: u8, times: u8, period: u16, Ghost(b): Ghost<int>)
        requires
            old(self).wf(),
            orders_below(old(self).edt.queue@, b),
            0 <= b,
            b + 1 <= u32::MAX,
            old(self).edt.now + 70000 <= u32::MAX,
        ensures
            final(self).wf(),
            orders_below(final(self).edt.queue@, b + 1),
            final(self).ctl() == blink_started(old(self).ctl(), color, times, period),
    {
        let ghost c0 = self.ctl();
        let rgb = self.rgb.get_rgb();
        let rgb2 = (rgb & !BLUE) | color;
        self.rgb.set_rgb(rgb2);
        self.remove_blinks();
        proof {
            lemma_orders_below_subset(c0.queue, self.edt.queue@, b);
            lemma_next_order_below(self.edt.queue@, (self.edt.now + period as u32) as u32, b);
            lemma_next_order(self.edt.queue@, (self.edt.now + period as u32) as u32);
        }
        self.edt.schedule(period as u32, Action::Blink { color, blinks: times, period });
        proof {
            assert(orders_below(self.edt.queue@, b + 1));
            assert(final(self).ctl() =~= blink_started(c0, color, times, period));
        }
    }

    /// Runs one step of a blink sequence: toggles the indicator (keeping
    /// the high-beam marker visible when the toggle would go dark) and
    /// reschedules itself while blinks remain.
    fn blink_led(&mut self, color: u8, blinks: u8, period: u16, Ghost(b): Ghost<int>)
        requires
            old(self).wf(),
            orders_below(old(self).edt.queue@, b),
            0 <= b,
            b + 1 <= u32::MAX,
            old(self).edt.now + 70000 <= u32::MAX,
        ensures
            final(self).wf(),
            orders_below(final(self).edt.queue@, b + 1),
            final(self).ctl() == blink_stepped(old(self).ctl(), color, blinks, period),
    {
        let ghost c0 = self.ctl();
        if blinks > 0 {
            let rgb = self.rgb.get_rgb();
            let rgb = rgb ^ color;
            let rgb = if rgb == 0 && self.state.high_beam {
                BLUE
            } else {
                rgb
            };
            self.rgb.set_rgb(rgb);
            proof {
                lemma_next_order_below(self.edt.queue@, (self.edt.now + period as u32) as u32, b);
                lemma_next_order(self.edt.queue@, (self.edt.now + period as u32) as u32);
            }
            self.edt.schedule(
                period as u32,
                Action::Blink { color, blinks: blinks - 1, period },
            );
            proof {
                assert(orders_below(self.edt.queue@, b + 1));
                assert(final(self).ctl() =~= blink_stepped(c0, color, blinks, period));
            }
        }
    }

    /// Cancels every resident animation step.
    fn remove_set_pwm(&mut self)
        requires
            old(self).wf(),
        ensures
            final(self).wf(),
            final(self).ctl() == (Ctl { queue: without_set_pwm(old(self).ctl().queue), ..old(
                self,
            ).ctl() }),
            forall|k: int|
                0 <= k < final(self).edt.queue@.len() ==> old(self).edt.queue@.contains(
                    #[trigger] final(self).edt.queue@[k],
                ),
    {
        let ghost q = self.edt.queue@;
        self.edt.remove(&(SetPwmMatcher {}));
        proof {
            assert(self.edt.queue@ == without_set_pwm(q)) by {
                lemma_filter_equivalent(
                    q,
                    |m: Msg<Action>| !(SetPwmMatcher {}).spec_matches(m.payload),
                    |m: Msg<Action>| !is_set_pwm(m.payload),
                );
            }
            lemma_actions_wf_subset(q, self.edt.queue@);
            assert(final(self).ctl() =~= (Ctl { queue: without_set_pwm(q), ..old(self).ctl() }));
        }
    }

    /// Calculates the duty for ramp step `i`, puts it on the channel, and
    /// schedules the next step while the ramp is unfinished.
    fn continue_led_animation(
        &mut self,
        start: u8,
        end: u8,
        i: usize,
        high_beam: bool,
        Ghost(b): Ghost<int>,
    )
        requires
            old(self).wf(),
            start <= 100,
            end <= 100,
            i <= ANIM_SIZE,
            orders_below(old(self).edt.queue@, b),
            0 <= b,
            b + 1 <= u32::MAX,
            old(self).edt.now + 70000 <= u32::MAX,
        ensures
            final(self).wf(),
            orders_below(final(self).edt.queue@, b + 1),
            final(self).ctl() == anim_stepped(old(self).ctl(), start, end, i as int, high_beam),
    {
        let ghost c0 = self.ctl();
        proof {
            lemma_anim_value_bounded(start as int, end as int, i as int);
            if end < start {
                lemma_fraction_bounded((start - end) as int, i as int, ANIM_SIZE as int);
            }
        }
        let value: u32 = if end >= start {
            start as u32 + (end - start) as u32 * (i as u32) / (ANIM_SIZE as u32)
        } else {
            start as u32 - (start - end) as u32 * (i as u32) / (ANIM_SIZE as u32)
        };
        if high_beam {
            self.led_high.set(value);
        } else {
            self.led.set(value);
        }
        if i < ANIM_SIZE {
            proof {
                lemma_next_order_below(self.edt.queue@, (self.edt.now + ANIM_STEP) as u32, b);
                lemma_next_order(self.edt.queue@, (self.edt.now + ANIM_STEP) as u32);
            }
            self.edt.schedule(ANIM_STEP, Action::SetPwm { start, end, i: i + 1, high_beam });
            proof {
                assert(orders_below(self.edt.queue@, b + 1));
                assert(final(self).ctl() =~= anim_stepped(c0, start, end, i as int, high_beam));
            }
        } else {
            proof {
                assert(final(self).ctl() =~= anim_stepped(c0, start, end, i as int, high_beam));
            }
        }
    }

    /// Starts a fresh low-beam ramp from the channel's current duty.
    fn animate_low_beam(&mut self, end: u8, Ghost(b): Ghost<int>)
        requires
            old(self).wf(),
            end <= 100,
            orders_below(old(self).edt.queue@, b),
            0 <= b,
            b + 1 <= u32::MAX,
            old(self).edt.now + 70000 <= u32::MAX,
        ensures
            final(self).wf(),
            orders_below(final(self).edt.queue@, b + 1),
            final(self).ctl() == anim_stepped(
                old(self).ctl(),
                old(self).led.duty() as u8,
                end,
                0,
                false,
            ),
    {
        let start = self.led.get();
        self.continue_led_animation(start as u8, end, 0, false, Ghost(b));
    }

    /// Starts a fresh high-beam ramp from the channel's current duty.
    fn animate_high_beam(&mut self, end: u8, Ghost(b): Ghost<int>)
        requires
            old(self).wf(),
            end <= 100,
            orders_below(old(self).edt.queue@, b),
            0 <= b,
            b + 1 <= u32::MAX,
            old(self).edt.now + 70000 <= u32::MAX,
        ensures
            final(self).wf(),
            orders_below(final(self).edt.queue@, b + 1),
            final(self).ctl() == anim_stepped(
                old(self).ctl(),
                old(self).led_high.duty() as u8,
                end,
                0,
                true,
            ),
    {
        let start = self.led_high.get();
        self.continue_led_animation(start as u8, end, 0, true, Ghost(b));
    }

    /// Replaces the control state: cancels the resident ramps, starts one
    /// fresh ramp per channel towards the targets the new state derives,
    /// and records the new state.
    fn change_state(&mut self, new_state: State, Ghost(b): Ghost<int>)
        requires
            old(self).wf(),
            new_state.power_level <= MAX_POWER_LEVEL,
            new_state.throttle <= 100,
            orders_below(old(self).edt.queue@, b),
            0 <= b,
            b + 2 <= u32::MAX,
            old(self).edt.now + 70000 <= u32::MAX,
        ensures
            final(self).wf(),
            orders_below(final(self).edt.queue@, b + 2),
            final(self).ctl() == state_changed(old(self).ctl(), new_state),
    {
        let ghost c0 = self.ctl();
        self.remove_set_pwm();
        proof {
            lemma_orders_below_subset(c0.queue, self.edt.queue@, b);
        }
        let targets = pwms(&new_state);
        self.animate_low_beam(targets.0, Ghost(b));
        self.animate_high_beam(targets.1, Ghost(b + 1));
        self.state = new_state;
        proof {
            assert(final(self).ctl() =~= state_changed(c0, new_state));
        }
    }

    /// One table step brighter, clamped at the top of the table.
    fn increment_power_level(&mut self, Ghost(b): Ghost<int>)
        requires
            old(self).wf(),
            orders_below(old(self).edt.queue@, b),
            0 <= b,
            b + 2 <= u32::MAX,
            old(self).edt.now + 70000 <= u32::MAX,
        ensures
            final(self).wf(),
            orders_below(final(self).edt.queue@, b + 2),
            final(self).ctl() == (if old(self).state.power_level < MAX_POWER_LEVEL {
                state_changed(
                    old(self).ctl(),
                    (State {
                        power_level: (old(self).state.power_level + 1) as usize,
                        ..old(self).state
                    }),
                )
            } else {
                old(self).ctl()
            }),
    {
        if self.state.power_level < MAX_POWER_LEVEL {
            let new_state = State { power_level: self.state.power_level + 1, ..self.state };
            self.change_state(new_state, Ghost(b));
        }
    }

    /// One table step darker, clamped at the bottom of the table.
    fn decrement_power_level(&mut self, Ghost(b): Ghost<int>)
        requires
            old(self).wf(),
            orders_below(old(self).edt.queue@, b),
            0 <= b,
            b + 2 <= u32::MAX,
            old(self).edt.now + 70000 <= u32::MAX,
        ensures
            final(self).wf(),
            orders_below(final(self).edt.queue@, b + 2),
            final(self).ctl() == (if old(self).state.power_level > 0 {
                state_changed(
                    old(self).ctl(),
                    (State {
                        power_level: (old(self).state.power_level - 1) as usize,
                        ..old(self).state
                    }),
                )
            } else {
                old(self).ctl()
            }),
    {
        if self.state.power_level > 0 {
            let new_state = State { power_level: self.state.power_level - 1, ..self.state };
            self.change_state(new_state, Ghost(b));
        }
    }

    /// Click feedback: one slow blink in the battery's color.
    fn indicate_click(&mut self, inputs: &Inputs, Ghost(b): Ghost<int>)
        requires
            old(self).wf(),
            inputs.wf(),
            orders_below(old(self).edt.queue@, b),
            0 <= b,
            b + 1 <= u32::MAX,
            old(self).edt.now + 70000 <= u32::MAX,
        ensures
            final(self).wf(),
            orders_below(final(self).edt.queue@, b + 1),
            final(self).ctl() == click_indicated(
                old(self).ctl(),
                capacity_of(inputs.battery_mv as int),
            ),
    {
        let cap = self.battery_capacity(inputs);
        let color = Self::battery_color(cap);
        self.blink(color, 1, 500, Ghost(b));
    }

    /// "Nothing happened" feedback: a quick flutter in the battery's color.
    fn indicate_nop(&mut self, inputs: &Inputs, Ghost(b): Ghost<int>)
        requires
            old(self).wf(),
            inputs.wf(),
            orders_below(old(self).edt.queue@, b),
            0 <= b,
            b + 1 <= u32::MAX,
            old(self).edt.now + 70000 <= u32::MAX,
        ensures
            final(self).wf(),
            orders_below(final(self).edt.queue@, b + 1),
            final(self).ctl() == nop_indicated(
                old(self).ctl(),
                capacity_of(inputs.battery_mv as int),
            ),
    {
        let cap = self.battery_capacity(inputs);
        let color = Self::battery_color(cap);
        self.blink(color, 7, 50, Ghost(b));
    }

    /// A plus click raises the power level by one, with nothing-happened
    /// feedback at the top of the table.
    fn on_plus_clicked(&mut self, inputs: &Inputs, Ghost(b): Ghost<int>)
        requires
            old(self).wf(),
            inputs.wf(),
            orders_below(old(self).edt.queue@, b),
            0 <= b,
            b + 3 <= u32::MAX,
            old(self).edt.now + 70000 <= u32::MAX,
        ensures
            final(self).wf(),
            orders_below(final(self).edt.queue@, b + 3),
            final(self).ctl() == plus_clicked(
                old(self).ctl(),
                capacity_of(inputs.battery_mv as int),
            ),
    {
        if self.state.power_level < MAX_POWER_LEVEL {
            self.increment_power_level(Ghost(b));
            self.indicate_click(inputs, Ghost(b + 2));
        } else {
            self.indicate_nop(inputs, Ghost(b));
        }
    }

    /// A minus click lowers the power level by one, with a floor one step
    /// above dark and nothing-happened feedback at the floor.
    fn on_minus_clicked(&mut self, inputs: &Inputs, Ghost(b): Ghost<int>)
        requires
            old(self).wf(),
            inputs.wf(),
            orders_below(old(self).edt.queue@, b),
            0 <= b,
            b + 3 <= u32::MAX,
            old(self).edt.now + 70000 <= u32::MAX,
        ensures
            final(self).wf(),
            orders_below(final(self).edt.queue@, b + 3),
            final(self).ctl() == minus_clicked(
                old(self).ctl(),
                capacity_of(inputs.battery_mv as int),
            ),
    {
        if self.state.power_level > 1 {
            self.decrement_power_level(Ghost(b));
            self.indicate_click(inputs, Ghost(b + 2));
        } else {
            self.indicate_nop(inputs, Ghost(b));
        }
    }

    /// A long click changes nothing; the flutter says so.
    fn on_long_clicked(&mut self, inputs: &Inputs, Ghost(b): Ghost<int>)
        requires
            old(self).wf(),
            inputs.wf(),
            orders_below(old(self).edt.queue@, b),
            0 <= b,
            b + 1 <= u32::MAX,
            old(self).edt.now + 70000 <= u32::MAX,
        ensures
            final(self).wf(),
            orders_below(final(self).edt.queue@, b + 1),
            final(self).ctl() == nop_indicated(
                old(self).ctl(),
                capacity_of(inputs.battery_mv as int),
            ),
    {
        self.indicate_nop(inputs, Ghost(b));
    }

    /// A toggle click flips the high beam, re-derives both channel
    /// targets, and shows or clears the high-beam marker.
    fn on_toggle_clicked(&mut self, Ghost(b): Ghost<int>)
        requires
            old(self).wf(),
            orders_below(old(self).edt.queue@, b),
            0 <= b,
            b + 2 <= u32::MAX,
            old(self).edt.now + 70000 <= u32::MAX,
        ensures
            final(self).wf(),
            orders_below(final(self).edt.queue@, b + 2),
            final(self).ctl() == toggle_clicked(old(self).ctl()),
    {
        let ghost c0 = self.ctl();
        let was_high = self.state.high_beam;
        let new_state = State { high_beam: !was_high, ..self.state };
        self.change_state(new_state, Ghost(b));
        let rgb = self.rgb.get_rgb();
        if was_high {
            self.rgb.set_rgb(rgb & !BLUE);
        } else {
            self.rgb.set_rgb(rgb | BLUE);
        }
        proof {
            assert(final(self).ctl() =~= toggle_clicked(c0));
        }
    }

    /// Hands an action to the timer, tracking the order-stamp headroom.
    fn schedule_action(&mut self, delay: u32, action: Action, Ghost(b): Ghost<int>)
        requires
            old(self).wf(),
            action_wf(action),
            orders_below(old(self).edt.queue@, b),
            0 <= b,
            b + 1 <= u32::MAX,
            old(self).edt.now + delay <= u32::MAX,
        ensures
            final(self).wf(),
            orders_below(final(self).edt.queue@, b + 1),
            final(self).ctl() == scheduled(old(self).ctl(), delay, action),
    {
        let ghost c0 = self.ctl();
        proof {
            lemma_next_order_below(self.edt.queue@, (self.edt.now + delay) as u32, b);
            lemma_next_order(self.edt.queue@, (self.edt.now + delay) as u32);
        }
        self.edt.schedule(delay, action);
        proof {
            assert(orders_below(self.edt.queue@, b + 1));
            assert(final(self).ctl() =~= scheduled(c0, delay, action));
        }
    }

    /// One button-sampling tick: debounces and handles the three buttons
    /// in order (minus, plus, toggle) and schedules the next tick.
    pub fn check_buttons(&mut self, inputs: &Inputs)
        requires
            old(self).wf(),
            old(self).headroom(),
            inputs.wf(),
        ensures
            final(self).wf(),
            final(self).edt.now == old(self).edt.now,
            orders_below(final(self).edt.queue@, (u32::MAX - 11) as int),
            final(self).ctl() == buttons_checked(old(self).ctl(), *inputs),
    {
        let ghost c0 = self.ctl();
        let ghost b: int = (u32::MAX - 20) as int;
        let ghost cap: int = capacity_of(inputs.battery_mv as int);

        let e_minus = self.minus_pin.check_state(inputs.minus_down, BUTTON_CHECK_PERIOD);
        let ghost c1 = Ctl {
            hold_minus: hold_after(c0.hold_minus, inputs.minus_down, BUTTON_CHECK_PERIOD),
            ..c0
        };
        proof {
            assert(self.ctl() =~= c1);
        }
        match e_minus {
            ButtonState::Clicked => self.on_minus_clicked(inputs, Ghost(b)),
            ButtonState::LongClicked => self.on_long_clicked(inputs, Ghost(b)),
            ButtonState::Nothing => {},
        }
        proof {
            assert(self.ctl() == minus_step(c0, inputs.minus_down, cap));
        }

        let ghost c2 = minus_step(c0, inputs.minus_down, cap);
        let e_plus = self.plus_pin.check_state(inputs.plus_down, BUTTON_CHECK_PERIOD);
        let ghost c3 = Ctl {
            hold_plus: hold_after(c2.hold_plus, inputs.plus_down, BUTTON_CHECK_PERIOD),
            ..c2
        };
        proof {
            assert(self.ctl() =~= c3);
        }
        match e_plus {
            ButtonState::Clicked => self.on_plus_clicked(inputs, Ghost(b + 3)),
            ButtonState::LongClicked => self.on_long_clicked(inputs, Ghost(b + 3)),
            ButtonState::Nothing => {},
        }
        proof {
            assert(self.ctl() == plus_step(c2, inputs.plus_down, cap));
        }

        let ghost c4 = plus_step(c2, inputs.plus_down, cap);
        let e_toggle = self.toggle_pin.check_state(inputs.toggle_down, BUTTON_CHECK_PERIOD);
        let ghost c5 = Ctl {
            hold_toggle: hold_after(c4.hold_toggle, inputs.toggle_down, BUTTON_CHECK_PERIOD),
            ..c4
        };
        proof {
            assert(self.ctl() =~= c5);
        }
        match e_toggle {
            ButtonState::Clicked => self.on_toggle_clicked(Ghost(b + 6)),
            ButtonState::LongClicked => {},
            ButtonState::Nothing => {},
        }
        proof {
            assert(self.ctl() == toggle_step(c4, inputs.toggle_down));
        }

        self.schedule_action(BUTTON_CHECK_PERIOD, Action::CheckButtons, Ghost(b + 8));
        proof {
            assert(final(self).ctl() =~= buttons_checked(c0, *inputs));
        }
    }

    /// One periodic battery-and-temperature check: re-derives the throttle
    /// from the snapshot, re-targets both channels when it moved, and
    /// schedules the next check.
    fn check_battery_and_temperature(&mut self, inputs: &Inputs, Ghost(b): Ghost<int>)
        requires
            old(self).wf(),
            inputs.wf(),
            orders_below(old(self).edt.queue@, b),
            0 <= b,
            b + 3 <= u32::MAX,
            old(self).edt.now + 70000 <= u32::MAX,
        ensures
            final(self).wf(),
            orders_below(final(self).edt.queue@, b + 3),
            final(self).ctl() == battery_checked(old(self).ctl(), *inputs),
    {
        let ghost c0 = self.ctl();
        let temp = inputs.temperature;
        let battery_capacity = self.battery_capacity(inputs);
        let throttle = calc_throttle(temp, battery_capacity);
        if throttle != self.state.throttle {
            let new_state = State { throttle, ..self.state };
            self.change_state(new_state, Ghost(b));
        }
        self.schedule_action(500, Action::CheckBatteryAndTemperature, Ghost(b + 2));
        proof {
            assert(final(self).ctl() =~= battery_checked(c0, *inputs));
        }
    }

    /// One periodic status indication: blinks the indicator in the tier's
    /// color and cadence and schedules the next indication after the
    /// tier's interval.
    fn indicate_battery_and_temperature(&mut self, inputs: &Inputs, Ghost(b): Ghost<int>)
        requires
            old(self).wf(),
            inputs.wf(),
            orders_below(old(self).edt.queue@, b),
            0 <= b,
            b + 2 <= u32::MAX,
            old(self).edt.now + 70000 <= u32::MAX,
        ensures
            final(self).wf(),
            orders_below(final(self).edt.queue@, b + 2),
            final(self).ctl() == battery_indicated(old(self).ctl(), *inputs),
    {
        let ghost c0 = self.ctl();
        let temp = inputs.temperature;
        if temp > 60 {
            self.blink(RED | GREEN | BLUE, 13, 50, Ghost(b));
            self.schedule_action(3000, Action::IndicateBatteryAndTemperature, Ghost(b + 1));
        } else {
            let capacity = self.battery_capacity(inputs);
            if capacity > 40 {
                self.blink(Self::battery_color(capacity), 1, 500, Ghost(b));
                self.schedule_action(10000, Action::IndicateBatteryAndTemperature, Ghost(b + 1));
            } else if capacity > 10 {
                self.blink(Self::battery_color(capacity), 1, 500, Ghost(b));
                self.schedule_action(
                    capacity * 250,
                    Action::IndicateBatteryAndTemperature,
                    Ghost(b + 1),
                );
            } else if capacity >= 5 {
                self.blink(RED, 3, 100, Ghost(b));
                self.schedule_action(
                    capacity * 130,
                    Action::IndicateBatteryAndTemperature,
                    Ghost(b + 1),
                );
            } else {
                self.blink(RED, 3, 100, Ghost(b));
                self.schedule_action(660, Action::IndicateBatteryAndTemperature, Ghost(b + 1));
            }
        }
        proof {
            assert(final(self).ctl() =~= battery_indicated(c0, *inputs));
        }
    }

    /// Runs one dequeued action against the current input snapshot.
    pub fn process_message(&mut self, action: Action, inputs: &Inputs)
        requires
            old(self).wf(),
            old(self).headroom(),
            action_wf(action),
            inputs.wf(),
        ensures
            final(self).wf(),
            final(self).edt.now == old(self).edt.now,
            orders_below(final(self).edt.queue@, (u32::MAX - 11) as int),
            final(self).ctl() == message_processed(old(self).ctl(), action, *inputs),
    {
        let ghost b: int = (u32::MAX - 20) as int;
        match action {
            Action::CheckButtons => self.check_buttons(inputs),
            Action::Blink { color, blinks, period } => self.blink_led(
                color,
                blinks,
                period,
                Ghost(b),
            ),
            Action::SetPwm { start, end, i, high_beam } => self.continue_led_animation(
                start,
                end,
                i,
                high_beam,
                Ghost(b),
            ),
            Action::CheckBatteryAndTemperature => self.check_battery_and_temperature(
                inputs,
                Ghost(b),
            ),
            Action::IndicateBatteryAndTemperature => self.indicate_battery_and_temperature(
                inputs,
                Ghost(b),
            ),
        }
    }

    /// Seeds the default power level and schedules the start-up light
    /// show: the high beam flares up and dies down while the low beam
    /// ramps to its table value, without click feedback.
    pub fn jump_start(&mut self)
        requires
            old(self).wf(),
            old(self).headroom(),
        ensures
            final(self).wf(),
            final(self).edt.now == old(self).edt.now,
            orders_below(final(self).edt.queue@, (u32::MAX - 17) as int),
            final(self).ctl() == jump_started(old(self).ctl()),
    {
        let ghost c0 = self.ctl();
        let ghost b: int = (u32::MAX - 20) as int;
        self.state = State { power_level: POWER_LEVEL_INIT, high_beam: false, throttle: 100 };
        let level = power_level(POWER_LEVEL_INIT);
        self.schedule_action(
            ANIM_STEP,
            Action::SetPwm { start: 0, end: level, i: 0, high_beam: true },
            Ghost(b),
        );
        self.schedule_action(
            ANIM_DURATION * 2,
            Action::SetPwm { start: level, end: 0, i: 0, high_beam: true },
            Ghost(b + 1),
        );
        self.schedule_action(
            ANIM_DURATION,
            Action::SetPwm { start: 0, end: level, i: 0, high_beam: false },
            Ghost(b + 2),
        );
        proof {
            assert(final(self).ctl() =~= jump_started(c0));
        }
    }

    /// First poll of the buttons and first periodic battery check and
    /// status indication; each reschedules itself from then on.
    pub fn start(&mut self, inputs: &Inputs)
        requires
            old(self).wf(),
            old(self).headroom(),
            inputs.wf(),
        ensures
            final(self).wf(),
            final(self).edt.now == old(self).edt.now,
            orders_below(final(self).edt.queue@, (u32::MAX - 6) as int),
            final(self).ctl() == battery_indicated(
                battery_checked(buttons_checked(old(self).ctl(), *inputs), *inputs),
                *inputs,
            ),
    {
        self.check_buttons(inputs);
        self.check_battery_and_temperature(inputs, Ghost((u32::MAX - 11) as int));
        self.indicate_battery_and_temperature(inputs, Ghost((u32::MAX - 8) as int));
    }

    /// Asks the timer what to do next; the driver loop dispatches an
    /// `Execute` back into `process_message`, spends a `Wait` sleeping,
    /// and stops on `Halt`.
    pub fn poll(&mut self) -> (event: Event<Action>)
        requires
            old(self).wf(),
        ensures
            final(self).wf(),
            final(self).ctl() == (Ctl {
                now: final(self).edt.now,
                queue: final(self).edt.queue@,
                ..old(self).ctl()
            }),
            old(self).edt.queue@.len() == 0 ==> event == Event::<Action>::Halt
                && final(self).edt.now == old(self).edt.now && final(self).edt.queue@ == old(
                self,
            ).edt.queue@,
            old(self).edt.queue@.len() > 0 ==> {
                let h = old(self).edt.queue@[head_idx(old(self).edt.queue@)];
                &&& h.when > old(self).edt.now ==> event == (Event::<Action>::Wait {
                    ms: (h.when - old(self).edt.now) as u32,
                }) && final(self).edt.now == h.when && final(self).edt.queue@ == old(
                    self,
                ).edt.queue@ 
                &&& h.when <= old(self).edt.now ==> event == (Event::<Action>::Execute {
                    msg: h.payload,
                }) && action_wf(h.payload) && final(self).edt.now == old(self).edt.now
                    && final(self).edt.queue@ == old(self).edt.queue@.remove(
                    head_idx(old(self).edt.queue@),
                )
            },
    {
        let ghost c0 = self.ctl();
        let ghost q0 = self.edt.queue@;
        proof {
            if q0.len() > 0 {
                lemma_head_idx(q0);
            }
        }
        let event = self.edt.poll();
        proof {
            lemma_actions_wf_subset(q0, self.edt.queue@);
            assert(final(self).ctl() =~= (Ctl {
                now: final(self).edt.now,
                queue: final(self).edt.queue@,
                ..c0
            }));
        }
        event
    }

    /// Pins the virtual clock back to `t` after a poll overshot the end of
    /// a simulation window: the returned wait was not spent. Every
    /// resident message must still lie at or beyond `t`, so the timer's
    /// invariants are untouched.
    pub fn rewind_now(&mut self, t: u32)
        requires
            old(self).wf(),
            t <= old(self).edt.now,
            forall|k: int|
                0 <= k < old(self).edt.queue@.len() ==> (#[trigger] old(self).edt.queue@[k]).when
                    >= t,
        ensures
            final(self).wf(),
            final(self).ctl() == (Ctl { now: t, ..old(self).ctl() }),
    {
        let ghost c0 = self.ctl();
        self.edt.now = t;
        proof {
            assert(final(self).ctl() =~= (Ctl { now: t, ..c0 }));
        }
    }
}

} // verus!

