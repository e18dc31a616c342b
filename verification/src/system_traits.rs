//! Controller and timer contracts consumed by the host main loop, and the
//! button edge state machine shared by every controller implementation.

use vstd::prelude::*;

verus! {

/// The twelve buttons of the reference controller.
#[derive(Copy, Clone)]
pub enum ControllerButton {
    Up,
    Left,
    Down,
    Right,
    A,
    B,
    C,
    D,
    Select,
    Start,
    L,
    R,
}

/// Edge-tracking state of a single button.
#[derive(Copy, Clone, PartialEq, Eq, Structural, Debug)]
pub enum ButtonState {
    Idle,
    Released,
    Pressed,
    Held,
}

/// True iff the state counts as "down" for input queries.
pub open spec fn spec_is_down(s: ButtonState) -> bool {
    s == ButtonState::Pressed || s == ButtonState::Held
}

/// The button edge state machine: `Idle`/`Released` plus a down sample moves
/// to `Pressed`, `Pressed`/`Held` plus a down sample moves to `Held`,
/// `Pressed`/`Held` plus an up sample moves to `Released`, and
/// `Idle`/`Released` plus an up sample moves to `Idle`.
pub open spec fn spec_update_state(state: ButtonState, pressed: bool) -> ButtonState {
    match state {
        ButtonState::Idle | ButtonState::Released => if pressed {
            ButtonState::Pressed
        } else {
            ButtonState::Idle
        },
        ButtonState::Pressed | ButtonState::Held => if pressed {
            ButtonState::Held
        } else {
            ButtonState::Released
        },
    }
}

impl ButtonState {
    #[inline(always)]
    pub fn is_down(&self) -> (r: bool)
        ensures
            r == spec_is_down(*self),
    {
        *self == ButtonState::Pressed || *self == ButtonState::Held
    }

    #[inline(always)]
    pub fn is_up(&self) -> (r: bool)
        ensures
            r == !spec_is_down(*self),
    {
        !self.is_down()
    }
}

/// Advances one button's state from a raw down/up sample.
pub fn update_state(state: &ButtonState, pressed: bool) -> (r: ButtonState)
    ensures
        r == spec_update_state(*state, pressed),
{
    match state {
        ButtonState::Idle | ButtonState::Released => if pressed {
            ButtonState::Pressed
        } else {
            ButtonState::Idle
        },
        ButtonState::Pressed | ButtonState::Held => if pressed {
            ButtonState::Held
        } else {
            ButtonState::Released
        },
    }
}

/// A button sample becomes "down" exactly when the sample is down: the
/// machine never reports a pressed or held state after an up sample, and
/// always reports one after a down sample.
pub proof fn lemma_update_state_tracks_sample(state: ButtonState, pressed: bool)
    ensures
        spec_is_down(spec_update_state(state, pressed)) == pressed,
{
}

/// Input polling, implemented by the host against real hardware or a
/// windowing system.
pub trait ControllerTrait {
    fn update(&mut self);

    fn get_button_status(&self, button: ControllerButton) -> ButtonState;
}

/// Millisecond delays and closure timing, implemented by the host.
pub trait TimerTrait {
    fn delay(&mut self, millis: u32);

    fn measure<F: FnOnce()>(&self, act: F) -> u128;
}

} // verus!
