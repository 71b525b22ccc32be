//! Debounced button input: press and release edges and hold time.
use vstd::prelude::*;
use crate::buttons::{Button, ButtonState, bit_set};

verus! {

/// The abstract state of an input manager.
pub struct InputView {
    pub current: u8,
    pub last: u8,
    pub pressed: u8,
    pub released: u8,
    pub last_debounce_time: u32,
    pub press_start: u32,
    pub press_finish: u32,
}

/// Debounces raw button states and reports press/release edges.
#[derive(Debug, Clone, Copy)]
pub struct InputManager {
    current_state: ButtonState,
    last_state: ButtonState,
    pressed_events: ButtonState,
    released_events: ButtonState,
    last_debounce_time: u32,
    button_press_start: u32,
    button_press_finish: u32,
}

impl View for InputManager {
    type V = InputView;

    closed spec fn view(&self) -> InputView {
        InputView {
            current: self.current_state.state,
            last: self.last_state.state,
            pressed: self.pressed_events.state,
            released: self.released_events.state,
            last_debounce_time: self.last_debounce_time,
            press_start: self.button_press_start,
            press_finish: self.button_press_finish,
        }
    }
}

/// A raw state must stay unchanged for longer than this many ms to be accepted.
pub const DEBOUNCE_DELAY_MS: u32 = 5;

/// `a - b` floored at zero, on `u32`.
pub open spec fn sat_sub_u32(a: u32, b: u32) -> u32 {
    if a >= b { (a - b) as u32 } else { 0 }
}

/// Whether the raw state `s` only adds buttons to the non-empty raw state `last`:
/// pressing a further button of a chord does not restart the debounce delay.
pub open spec fn adds_to_held(last: u8, s: u8) -> bool {
    last != 0 && s & last == last
}

/// One debounce step with raw state `s` sampled at `now`: a changed raw state
/// restarts the debounce delay unless it only adds buttons to those held, and a
/// raw state that differs from the accepted one is accepted once the delay has
/// passed.
pub open spec fn input_update(v: InputView, s: u8, now: u32) -> InputView {
    let last = if s != v.last { s } else { v.last };
    let t = if s != v.last && !adds_to_held(v.last, s) { now } else { v.last_debounce_time };
    if sat_sub_u32(now, t) > DEBOUNCE_DELAY_MS && s != v.current {
        let pressed = s & !v.current;
        let released = v.current & !s;
        InputView {
            current: s,
            last,
            pressed,
            released,
            last_debounce_time: t,
            press_start: if pressed != 0 && v.current == 0 { now } else { v.press_start },
            press_finish: if released != 0 && s == 0 { now } else { v.press_finish },
        }
    } else {
        InputView { last, last_debounce_time: t, pressed: 0, released: 0, ..v }
    }
}

/// Holding the same raw state from `t1` to a sample more than the debounce delay
/// later makes it the accepted state, on a clock that does not run backwards.
pub proof fn law_stable_state_is_accepted(v: InputView, s: u8, t1: u32, t2: u32)
    requires
        v.last_debounce_time <= t1 <= t2,
        t2 - t1 > DEBOUNCE_DELAY_MS,
    ensures
        input_update(input_update(v, s, t1), s, t2).current == s,
{
}

/// A raw state that equals the accepted one produces no events.
pub proof fn law_unchanged_state_reports_nothing(v: InputView, now: u32)
    ensures
        input_update(v, v.current, now).pressed == 0,
        input_update(v, v.current, now).released == 0,
        input_update(v, v.current, now).current == v.current,
{
}

/// The events of an update are the edges between the accepted states before
/// and after it: a button is reported pressed exactly when it is held now and
/// was not held before, and released exactly when it was held and is not now.
/// A button that stays held, such as the rest of a chord when one of its
/// buttons is let go, is never reported pressed again.
pub proof fn law_events_are_edges(v: InputView, s: u8, now: u32)
    ensures
        input_update(v, s, now).pressed == input_update(v, s, now).current & !v.current,
        input_update(v, s, now).released == v.current & !input_update(v, s, now).current,
        forall|b: Button|
            #![trigger bit_set(input_update(v, s, now).pressed, b)]
            bit_set(input_update(v, s, now).pressed, b) <==> (bit_set(input_update(v, s, now).current, b) && !bit_set(
                v.current,
                b,
            )),
{
    let w = input_update(v, s, now);
    let c = v.current;
    assert(c & !c == 0) by (bit_vector);
    let n = w.current;
    assert forall|b: Button| bit_set(w.pressed, b) <==> (bit_set(n, b) && !bit_set(c, b)) by {
        let i = crate::buttons::button_bit(b);
        assert(((n & !c) & (1u8 << i) != 0) <==> (n & (1u8 << i) != 0 && c & (1u8 << i) == 0)) by (bit_vector)
            requires
                i < 7,
        ;
    }
}

/// The hold time starts when the first button goes down from nothing held, and
/// ends when the last held button is let go.
pub proof fn law_hold_time_bounds(v: InputView, s: u8, now: u32)
    ensures
        v.current == 0 && input_update(v, s, now).current != 0 ==> input_update(v, s, now).press_start == now,
        v.current != 0 && input_update(v, s, now).current == 0 ==> input_update(v, s, now).press_finish == now,
        input_update(v, s, now).current == v.current ==> input_update(v, s, now).press_start == v.press_start
            && input_update(v, s, now).press_finish == v.press_finish,
{
    let c = v.current;
    assert(c == 0 && s != 0 ==> s & !c != 0) by (bit_vector);
    assert(c != 0 && s == 0 ==> c & !s != 0) by (bit_vector);
}

/// A raw state seen for the first time, that does not merely add buttons to
/// those held, is not accepted at once: it must outlast the debounce delay.
pub proof fn law_new_raw_state_waits(v: InputView, s: u8, now: u32)
    requires
        s != v.last,
        !adds_to_held(v.last, s),
    ensures
        input_update(v, s, now).current == v.current,
        input_update(v, s, now).pressed == 0,
        input_update(v, s, now).released == 0,
        input_update(v, s, now).last_debounce_time == now,
{
}

impl InputManager {
    pub const DEBOUNCE_DELAY_MS: u32 = 5;

    /// A manager with nothing held and no events.
    pub fn new() -> (r: Self)
        ensures
            r@ == (InputView {
                current: 0,
                last: 0,
                pressed: 0,
                released: 0,
                last_debounce_time: 0,
                press_start: 0,
                press_finish: 0,
            }),
    {
        Self {
            current_state: ButtonState { state: 0 },
            last_state: ButtonState { state: 0 },
            pressed_events: ButtonState { state: 0 },
            released_events: ButtonState { state: 0 },
            last_debounce_time: 0,
            button_press_start: 0,
            button_press_finish: 0,
        }
    }

    /// The debounce delay in milliseconds.
    pub fn debounce_delay_ms() -> (r: u32)
        ensures
            r == DEBOUNCE_DELAY_MS,
    {
        DEBOUNCE_DELAY_MS
    }

    /// Feeds the raw state sampled at `now_ms`. No button is reported both pressed
    /// and released by one update, and a reported press is held afterwards.
    pub fn update(&mut self, state: ButtonState, now_ms: u32)
        ensures
            final(self)@ == input_update(old(self)@, state.state, now_ms),
            final(self)@.pressed & final(self)@.released == 0,
            forall|b: Button| bit_set(final(self)@.pressed, b) ==> #[trigger] bit_set(final(self)@.current, b),
            forall|b: Button| bit_set(final(self)@.released, b) ==> !#[trigger] bit_set(final(self)@.current, b),
            forall|b: Button| bit_set(final(self)@.pressed, b) ==> !#[trigger] bit_set(old(self)@.current, b),
            final(self)@.pressed == final(self)@.current & !old(self)@.current,
            final(self)@.released == old(self)@.current & !final(self)@.current,
    {
        self.pressed_events = ButtonState { state: 0 };
        self.released_events = ButtonState { state: 0 };

        if state.state != self.last_state.state {
            let prev = self.last_state.state;
            let adds = prev != 0 && state.state & prev == prev;
            if !adds {
                self.last_debounce_time = now_ms;
            }
            self.last_state = state;
        }

        if now_ms.saturating_sub(self.last_debounce_time) > DEBOUNCE_DELAY_MS
            && state.state != self.current_state.state
        {
            let cur = self.current_state.state;
            self.pressed_events = ButtonState { state: state.state & !cur };
            self.released_events = ButtonState { state: cur & !state.state };

            if self.pressed_events.any_pressed() && !self.current_state.any_pressed() {
                self.button_press_start = now_ms;
            }

            if self.released_events.any_pressed() && !state.any_pressed() {
                self.button_press_finish = now_ms;
            }

            self.current_state = state;
            proof {
                let s = state.state;
                assert((s & !cur) & (cur & !s) == 0) by (bit_vector);
                assert forall|b: Button| bit_set(s & !cur, b) implies #[trigger] bit_set(s, b) by {
                    let m = crate::buttons::button_mask(b);
                    assert((s & !cur) & m != 0 ==> s & m != 0) by (bit_vector);
                }
                assert forall|b: Button| bit_set(cur & !s, b) implies !#[trigger] bit_set(s, b) by {
                    let i = crate::buttons::button_bit(b);
                    assert((cur & !s) & (1u8 << i) != 0 ==> s & (1u8 << i) == 0) by (bit_vector)
                        requires
                            i < 7,
                    ;
                }
            }
        }
        proof {
            assert forall|b: Button| !#[trigger] bit_set(0u8, b) by {
                let m = crate::buttons::button_mask(b);
                assert(0u8 & m == 0) by (bit_vector);
            }
            assert(0u8 & 0u8 == 0) by (bit_vector);
            law_events_are_edges(old(self)@, state.state, now_ms);
            assert(self@ == input_update(old(self)@, state.state, now_ms));
        }
    }

    /// Whether `button` is held after debouncing.
    pub fn is_pressed(&self, button: Button) -> (r: bool)
        ensures
            r == bit_set(self@.current, button),
    {
        self.current_state.is_pressed(button)
    }

    /// Whether the last update reported a press of `button`.
    pub fn was_pressed(&self, button: Button) -> (r: bool)
        ensures
            r == bit_set(self@.pressed, button),
    {
        self.pressed_events.is_pressed(button)
    }

    /// Whether the last update reported a release of `button`.
    pub fn was_released(&self, button: Button) -> (r: bool)
        ensures
            r == bit_set(self@.released, button),
    {
        self.released_events.is_pressed(button)
    }

    pub fn was_any_pressed(&self) -> (r: bool)
        ensures
            r == (self@.pressed != 0),
    {
        self.pressed_events.any_pressed()
    }

    pub fn was_any_released(&self) -> (r: bool)
        ensures
            r == (self@.released != 0),
    {
        self.released_events.any_pressed()
    }

    /// How long the current press has lasted at `now_ms`, or how long the last
    /// one lasted once everything is released.
    pub fn held_time(&self, now_ms: u32) -> (r: u32)
        ensures
            r == (if self@.current != 0 { sat_sub_u32(now_ms, self@.press_start) } else {
                sat_sub_u32(self@.press_finish, self@.press_start)
            }),
    {
        if self.current_state.any_pressed() {
            now_ms.saturating_sub(self.button_press_start)
        } else {
            self.button_press_finish.saturating_sub(self.button_press_start)
        }
    }

    /// The debounced state.
    pub fn state(&self) -> (r: ButtonState)
        ensures
            r.state == self@.current,
    {
        self.current_state
    }
}

} // verus!
