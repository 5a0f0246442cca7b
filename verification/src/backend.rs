//! What backends tell the compositor about input.

use vstd::prelude::*;

verus! {

#[derive(Copy, Clone, Debug, PartialEq, Eq, Structural)]
pub enum KeyState {
    Released,
    Pressed,
}

#[derive(Copy, Clone, Debug, PartialEq, Eq, Structural)]
pub enum ScrollAxis {
    Horizontal,
    Vertical,
}

#[derive(Copy, Clone, Debug, PartialEq, Eq, Structural)]
pub enum AxisSource {
    Wheel,
    Finger,
    Continuous,
}

/// What a mouse of a backend reports.
#[derive(Copy, Clone, Debug, PartialEq, Eq, Structural)]
pub enum MouseEvent {
    Button(u32, KeyState),
    Scroll(i32, ScrollAxis),
}

/// What a keyboard of a backend reports.
#[derive(Copy, Clone, Debug, PartialEq, Eq, Structural)]
pub enum KeyboardEvent {
    Key(u32, KeyState),
}

} // verus!
