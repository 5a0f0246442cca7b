//! What the backend on bare metal makes of the events of the input library.

use vstd::prelude::*;
use crate::backend::{AxisSource, KeyState};
use crate::utils::copyhashmap::CopyHashMap;

verus! {

pub const LIBINPUT_EVENT_DEVICE_ADDED: u32 = 1;
pub const LIBINPUT_EVENT_DEVICE_REMOVED: u32 = 2;
pub const LIBINPUT_EVENT_KEYBOARD_KEY: u32 = 300;
pub const LIBINPUT_EVENT_POINTER_MOTION: u32 = 400;
pub const LIBINPUT_EVENT_POINTER_BUTTON: u32 = 402;
pub const LIBINPUT_EVENT_POINTER_SCROLL_WHEEL: u32 = 404;
pub const LIBINPUT_EVENT_POINTER_SCROLL_FINGER: u32 = 405;
pub const LIBINPUT_EVENT_POINTER_SCROLL_CONTINUOUS: u32 = 406;

pub const LIBINPUT_KEY_STATE_PRESSED: u32 = 1;
pub const LIBINPUT_BUTTON_STATE_PRESSED: u32 = 1;

/// What is done with an event of the input library.
#[derive(Copy, Clone, Debug, PartialEq, Eq, Structural)]
pub enum EventHandler {
    DeviceAdded,
    DeviceRemoved,
    KeyboardKey,
    PointerMotion,
    PointerButton,
    PointerAxis(AxisSource),
    Ignored,
}

pub open spec fn spec_handler(ty: u32) -> EventHandler {
    if ty == LIBINPUT_EVENT_DEVICE_ADDED {
        EventHandler::DeviceAdded
    } else if ty == LIBINPUT_EVENT_DEVICE_REMOVED {
        EventHandler::DeviceRemoved
    } else if ty == LIBINPUT_EVENT_KEYBOARD_KEY {
        EventHandler::KeyboardKey
    } else if ty == LIBINPUT_EVENT_POINTER_MOTION {
        EventHandler::PointerMotion
    } else if ty == LIBINPUT_EVENT_POINTER_BUTTON {
        EventHandler::PointerButton
    } else if ty == LIBINPUT_EVENT_POINTER_SCROLL_WHEEL {
        EventHandler::PointerAxis(AxisSource::Wheel)
    } else if ty == LIBINPUT_EVENT_POINTER_SCROLL_FINGER {
        EventHandler::PointerAxis(AxisSource::Finger)
    } else if ty == LIBINPUT_EVENT_POINTER_SCROLL_CONTINUOUS {
        EventHandler::PointerAxis(AxisSource::Continuous)
    } else {
        EventHandler::Ignored
    }
}

/// The keys or buttons of a device that are held down.
pub struct Pressed {
    pub held: CopyHashMap,
}

impl Pressed {
    pub open spec fn is_held(self, code: u32) -> bool {
        self.held@.dom().contains(code as u64)
    }

    pub fn new() -> (r: Pressed)
        ensures
            forall|code: u32| !r.is_held(code),
    {
        Pressed { held: CopyHashMap::new() }
    }

    /// Notes that a key or button went down or up, and says what to report: a
    /// press of what is held already and a release of what is not held are not
    /// reported.
    pub fn transition(&mut self, code: u32, pressed: bool) -> (r: Option<KeyState>)
        ensures
            forall|other: u32|
                other != code ==> final(self).is_held(other) == old(self).is_held(other),
            final(self).is_held(code) == pressed,
            r == (if pressed == old(self).is_held(code) {
                None
            } else if pressed {
                Some(KeyState::Pressed)
            } else {
                Some(KeyState::Released)
            }),
    {
        if pressed {
            let was = self.held.contains(code as u64);
            self.held.set(code as u64, 0);
            if was {
                None
            } else {
                Some(KeyState::Pressed)
            }
        } else {
            match self.held.remove(code as u64) {
                Some(_) => Some(KeyState::Released),
                None => None,
            }
        }
    }
}

/// The backend's view of the input devices of the machine.
pub struct MetalBackend {
    pub pressed_keys: Pressed,
    pub pressed_buttons: Pressed,
}

impl MetalBackend {
    pub fn new() -> (r: MetalBackend)
        ensures
            forall|code: u32| !r.pressed_keys.is_held(code) && !r.pressed_buttons.is_held(code),
    {
        MetalBackend { pressed_keys: Pressed::new(), pressed_buttons: Pressed::new() }
    }

    /// What is done with an event of the given type.
    pub fn handle_event(ty: u32) -> (r: EventHandler)
        ensures
            r == spec_handler(ty),
    {
        if ty == LIBINPUT_EVENT_DEVICE_ADDED {
            EventHandler::DeviceAdded
        } else if ty == LIBINPUT_EVENT_DEVICE_REMOVED {
            EventHandler::DeviceRemoved
        } else if ty == LIBINPUT_EVENT_KEYBOARD_KEY {
            EventHandler::KeyboardKey
        } else if ty == LIBINPUT_EVENT_POINTER_MOTION {
            EventHandler::PointerMotion
        } else if ty == LIBINPUT_EVENT_POINTER_BUTTON {
            EventHandler::PointerButton
        } else if ty == LIBINPUT_EVENT_POINTER_SCROLL_WHEEL {
            EventHandler::PointerAxis(AxisSource::Wheel)
        } else if ty == LIBINPUT_EVENT_POINTER_SCROLL_FINGER {
            EventHandler::PointerAxis(AxisSource::Finger)
        } else if ty == LIBINPUT_EVENT_POINTER_SCROLL_CONTINUOUS {
            EventHandler::PointerAxis(AxisSource::Continuous)
        } else {
            EventHandler::Ignored
        }
    }

    /// What a key event of the input library leads to: the key and its new state,
    /// unless the state of the key did not change.
    pub fn handle_keyboard_key(&mut self, key: u32, key_state: u32) -> (r: Option<(u32, KeyState)>)
        ensures
            final(self).pressed_keys.is_held(key) == (key_state == LIBINPUT_KEY_STATE_PRESSED),
            forall|other: u32|
                other != key ==> final(self).pressed_keys.is_held(other) == old(self).pressed_keys.is_held(other),
            forall|other: u32|
                final(self).pressed_buttons.is_held(other) == old(self).pressed_buttons.is_held(
                    other,
                ),
            r == (if (key_state == LIBINPUT_KEY_STATE_PRESSED) == old(self).pressed_keys.is_held(
                key,
            ) {
                None
            } else if key_state == LIBINPUT_KEY_STATE_PRESSED {
                Some((key, KeyState::Pressed))
            } else {
                Some((key, KeyState::Released))
            }),
    {
        match self.pressed_keys.transition(key, key_state == LIBINPUT_KEY_STATE_PRESSED) {
            Some(state) => Some((key, state)),
            None => None,
        }
    }

    /// What a button event of the input library leads to: the button and its new
    /// state, unless the state of the button did not change.
    pub fn handle_pointer_button(&mut self, button: u32, button_state: u32) -> (r: Option<
        (u32, KeyState),
    >)
        ensures
            final(self).pressed_buttons.is_held(button) == (button_state
                == LIBINPUT_BUTTON_STATE_PRESSED),
            forall|other: u32|
                other != button ==> final(self).pressed_buttons.is_held(other) == old(self).pressed_buttons.is_held(other),
            forall|other: u32|
                final(self).pressed_keys.is_held(other) == old(self).pressed_keys.is_held(other),
            r == (if (button_state == LIBINPUT_BUTTON_STATE_PRESSED) == old(self).pressed_buttons.is_held(button) {
                None
            } else if button_state == LIBINPUT_BUTTON_STATE_PRESSED {
                Some((button, KeyState::Pressed))
            } else {
                Some((button, KeyState::Released))
            }),
    {
        match self.pressed_buttons.transition(button, button_state == LIBINPUT_BUTTON_STATE_PRESSED) {
            Some(state) => Some((button, state)),
            None => None,
        }
    }
}

} // verus!
