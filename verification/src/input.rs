//! Buttons of the console.

use vstd::prelude::*;

verus! {

pub const BUTTON_UP: u32 = 0x0010_0000;

pub const BUTTON_DOWN: u32 = 0x0800_0000;

pub const BUTTON_LEFT: u32 = 0x1000_0000;

pub const BUTTON_RIGHT: u32 = 0x0004_0000;

pub const BUTTON_A: u32 = 0x8000_0000;

pub const BUTTON_B: u32 = 0x0020_0000;

pub const BUTTON_X: u32 = 0x0001_0000;

pub const BUTTON_Y: u32 = 0x0000_0040;

pub const BUTTON_START: u32 = 0x0000_0800;

pub const BUTTON_SELECT: u32 = 0x0000_0400;

pub const BUTTON_L: u32 = 0x0000_0100;

pub const BUTTON_R: u32 = 0x2000_0000;

/// Frames until a held key repeats.
pub const DEFAULT_REPEAT_DELAY: u32 = 24;

/// Frames between two repetitions.
pub const DEFAULT_REPEAT_PERIOD: u32 = 6;

/// Buttons that the guest sees held, and how keys are set up.
#[derive(Clone, Copy, Debug, PartialEq, Eq, Structural)]
pub struct Input {
    pub buttons: u32,
    pub repeat_delay: u32,
    pub repeat_period: u32,
    pub swap_ab: bool,
}

/// Buttons with A and B exchanged.
pub open spec fn exchanged(buttons: u32) -> u32 {
    (buttons & !(BUTTON_A | BUTTON_B)) | (if buttons & BUTTON_A != 0 {
        BUTTON_B
    } else {
        0
    }) | (if buttons & BUTTON_B != 0 {
        BUTTON_A
    } else {
        0
    })
}

/// Nothing held, with the usual timing.
pub open spec fn no_input() -> Input {
    Input {
        buttons: 0,
        repeat_delay: DEFAULT_REPEAT_DELAY,
        repeat_period: DEFAULT_REPEAT_PERIOD,
        swap_ab: false,
    }
}

impl Input {
    /// Nothing held, with the usual timing.
    pub fn new() -> (input: Input)
        ensures
            input == no_input(),
    {
        Input {
            buttons: 0,
            repeat_delay: DEFAULT_REPEAT_DELAY,
            repeat_period: DEFAULT_REPEAT_PERIOD,
            swap_ab: false,
        }
    }

    /// The input with these buttons held.
    pub open spec fn holding(self, buttons: u32) -> Input {
        Input {
            buttons: if self.swap_ab {
                exchanged(buttons)
            } else {
                buttons
            },
            ..self
        }
    }

    /// Sets the buttons that the player holds.
    pub fn set_buttons(&mut self, buttons: u32)
        ensures
            *final(self) == old(self).holding(buttons),
    {
        self.buttons = if self.swap_ab {
            let a: u32 = if buttons & BUTTON_A != 0 {
                BUTTON_B
            } else {
                0
            };
            let b: u32 = if buttons & BUTTON_B != 0 {
                BUTTON_A
            } else {
                0
            };
            (buttons & !(BUTTON_A | BUTTON_B)) | a | b
        } else {
            buttons
        };
    }

    /// The buttons that the guest sees held.
    pub fn buttons(&self) -> (buttons: u32)
        ensures
            buttons == self.buttons,
    {
        self.buttons
    }

    /// Sets after how many frames a held button repeats, and how often.
    pub fn set_repeat_timing(&mut self, delay: u32, period: u32)
        ensures
            *final(self) == (Input { repeat_delay: delay, repeat_period: period, ..*old(self) }),
    {
        self.repeat_delay = delay;
        self.repeat_period = period;
    }

    /// Sets whether two buttons are exchanged.
    pub fn set_swap_ab(&mut self, swap: bool)
        ensures
            *final(self) == (Input { swap_ab: swap, ..*old(self) }),
    {
        self.swap_ab = swap;
    }
}

/// Exchanging A and B twice changes nothing, and exchanging them once leaves the
/// other buttons alone.
pub proof fn law_exchange_undoes_itself(buttons: u32)
    ensures
        exchanged(exchanged(buttons)) == buttons,
        exchanged(buttons) & !(BUTTON_A | BUTTON_B) == buttons & !(BUTTON_A | BUTTON_B),
{
    assert(exchanged(exchanged(buttons)) == buttons) by (bit_vector);
    assert(exchanged(buttons) & !(BUTTON_A | BUTTON_B) == buttons & !(BUTTON_A | BUTTON_B))
        by (bit_vector);
}

} // verus!
