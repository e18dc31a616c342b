//! Button input state as seen by the embedded demo's input layer.

use vstd::prelude::*;

verus! {

/// Edge-tracking state of one input line.
#[derive(PartialEq, Eq, Structural, Debug)]
pub enum InputState {
    Idle,
    Released,
    Pressed,
    Held,
}

impl InputState {
    #[inline(always)]
    pub fn is_down(&self) -> (r: bool)
        ensures
            r == (*self == InputState::Pressed || *self == InputState::Held),
    {
        *self == InputState::Pressed || *self == InputState::Held
    }

    #[inline(always)]
    pub fn is_up(&self) -> (r: bool)
        ensures
            r == !(*self == InputState::Pressed || *self == InputState::Held),
    {
        !self.is_down()
    }
}

} // verus!
