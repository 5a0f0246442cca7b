//! What the backend that runs in a window of an X server makes of the events of
//! that server.

use vstd::prelude::*;
use std::collections::VecDeque;
use crate::backend::{KeyState, KeyboardEvent, MouseEvent, ScrollAxis};
use crate::utils::copyhashmap::{lookup, CopyHashMap};

verus! {

pub const XCB_DESTROY_NOTIFY: u8 = 17;
pub const XCB_CONFIGURE_NOTIFY: u8 = 22;
pub const XCB_GE_GENERIC: u8 = 35;

pub const XCB_PRESENT_COMPLETE_NOTIFY: u16 = 1;
pub const XCB_PRESENT_IDLE_NOTIFY: u16 = 2;

pub const XCB_INPUT_KEY_PRESS: u16 = 2;
pub const XCB_INPUT_KEY_RELEASE: u16 = 3;
pub const XCB_INPUT_BUTTON_PRESS: u16 = 4;
pub const XCB_INPUT_BUTTON_RELEASE: u16 = 5;
pub const XCB_INPUT_MOTION: u16 = 6;
pub const XCB_INPUT_ENTER: u16 = 7;
pub const XCB_INPUT_HIERARCHY: u16 = 11;

pub const BTN_LEFT: u32 = 0x110;
pub const BTN_RIGHT: u32 = 0x111;
pub const BTN_MIDDLE: u32 = 0x112;
pub const BTN_SIDE: u32 = 0x113;

/// What the backend itself finds wrong. What goes wrong between the backend and
/// the server is known where the server is talked to.
#[derive(Copy, Clone, Debug, PartialEq, Eq, Structural)]
pub enum XorgBackendError {
    /// The connection to the server is in an error state.
    ErrorEvent,
}

/// What is done with an event of the server.
#[derive(Copy, Clone, Debug, PartialEq, Eq, Structural)]
pub enum EventHandler {
    Configure,
    Destroy,
    Generic,
    Ignored,
}

/// What is done with an event of an extension.
#[derive(Copy, Clone, Debug, PartialEq, Eq, Structural)]
pub enum GenericHandler {
    PresentComplete,
    PresentIdle,
    InputMotion,
    InputEnter,
    InputButton(KeyState),
    InputKey(KeyState),
    InputHierarchy,
    Ignored,
}

/// The type of an event without the bit that marks an event sent by another client.
pub open spec fn event_type(response_type: u8) -> u8 {
    response_type & 0x7f
}

pub open spec fn spec_handle_event(response_type: u8) -> EventHandler {
    let ty = event_type(response_type);
    if ty == XCB_CONFIGURE_NOTIFY {
        EventHandler::Configure
    } else if ty == XCB_DESTROY_NOTIFY {
        EventHandler::Destroy
    } else if ty == XCB_GE_GENERIC {
        EventHandler::Generic
    } else {
        EventHandler::Ignored
    }
}

pub open spec fn spec_handle_present_event(event_type: u16) -> GenericHandler {
    if event_type == XCB_PRESENT_COMPLETE_NOTIFY {
        GenericHandler::PresentComplete
    } else if event_type == XCB_PRESENT_IDLE_NOTIFY {
        GenericHandler::PresentIdle
    } else {
        GenericHandler::Ignored
    }
}

pub open spec fn spec_handle_input_event(event_type: u16) -> GenericHandler {
    if event_type == XCB_INPUT_MOTION {
        GenericHandler::InputMotion
    } else if event_type == XCB_INPUT_ENTER {
        GenericHandler::InputEnter
    } else if event_type == XCB_INPUT_BUTTON_PRESS {
        GenericHandler::InputButton(KeyState::Pressed)
    } else if event_type == XCB_INPUT_BUTTON_RELEASE {
        GenericHandler::InputButton(KeyState::Released)
    } else if event_type == XCB_INPUT_KEY_PRESS {
        GenericHandler::InputKey(KeyState::Pressed)
    } else if event_type == XCB_INPUT_KEY_RELEASE {
        GenericHandler::InputKey(KeyState::Released)
    } else if event_type == XCB_INPUT_HIERARCHY {
        GenericHandler::InputHierarchy
    } else {
        GenericHandler::Ignored
    }
}

/// What a button of the server, in one of its two states, is to the compositor:
/// the buttons 4 to 7 scroll by 15 when they go down and are nothing when they go
/// up, button 0 is nothing, and every other button is a button of the mouse.
pub open spec fn spec_button(button: u32, state: KeyState) -> Option<MouseEvent> {
    if 4 <= button <= 7 {
        if state == KeyState::Pressed {
            Some(
                if button == 4 {
                    MouseEvent::Scroll(-15i32, ScrollAxis::Vertical)
                } else if button == 5 {
                    MouseEvent::Scroll(15, ScrollAxis::Vertical)
                } else if button == 6 {
                    MouseEvent::Scroll(-15i32, ScrollAxis::Horizontal)
                } else {
                    MouseEvent::Scroll(15, ScrollAxis::Horizontal)
                },
            )
        } else {
            None
        }
    } else if button == 0 {
        None
    } else if button == 1 {
        Some(MouseEvent::Button(BTN_LEFT, state))
    } else if button == 2 {
        Some(MouseEvent::Button(BTN_MIDDLE, state))
    } else if button == 3 {
        Some(MouseEvent::Button(BTN_RIGHT, state))
    } else {
        Some(MouseEvent::Button((BTN_SIDE + button - 8) as u32, state))
    }
}

/// One of the two images that an output presents in turn.
#[derive(Copy, Clone, Debug, PartialEq, Eq, Structural)]
pub struct XorgImage {
    pub pixmap: u32,
    /// Whether the server is done with the image.
    pub idle: bool,
    /// Whether the image is to be presented as soon as the server is done with it.
    pub render_on_idle: bool,
    pub last_serial: u32,
}

/// A window of the server that the compositor presents to.
#[derive(Copy, Clone, Debug, PartialEq, Eq, Structural)]
pub struct XorgOutput {
    pub window: u32,
    pub removed: bool,
    pub width: i32,
    pub height: i32,
    pub serial: u32,
    pub next_msc: u64,
    pub next_image: usize,
    pub first: XorgImage,
    pub second: XorgImage,
}

/// A presentation that the backend asks the server for.
#[derive(Copy, Clone, Debug, PartialEq, Eq, Structural)]
pub struct Present {
    /// Which of the two images is presented.
    pub image: usize,
    pub pixmap: u32,
    pub serial: u32,
    pub target_msc: u64,
}

impl XorgOutput {
    pub open spec fn image(self, i: usize) -> XorgImage {
        if i % 2 == 0 {
            self.first
        } else {
            self.second
        }
    }

    pub open spec fn with_image(self, i: usize, image: XorgImage) -> XorgOutput {
        if i % 2 == 0 {
            XorgOutput { first: image, ..self }
        } else {
            XorgOutput { second: image, ..self }
        }
    }

    pub fn new(window: u32, first_pixmap: u32, second_pixmap: u32) -> (r: XorgOutput)
        ensures
            r.window == window,
            !r.removed,
            r.width == 0 && r.height == 0,
            r.serial == 0 && r.next_msc == 0 && r.next_image == 0,
            r.first == (XorgImage {
                pixmap: first_pixmap,
                idle: true,
                render_on_idle: false,
                last_serial: 0,
            }),
            r.second == (XorgImage {
                pixmap: second_pixmap,
                idle: true,
                render_on_idle: false,
                last_serial: 0,
            }),
    {
        XorgOutput {
            window,
            removed: false,
            width: 0,
            height: 0,
            serial: 0,
            next_msc: 0,
            next_image: 0,
            first: XorgImage {
                pixmap: first_pixmap,
                idle: true,
                render_on_idle: false,
                last_serial: 0,
            },
            second: XorgImage {
                pixmap: second_pixmap,
                idle: true,
                render_on_idle: false,
                last_serial: 0,
            },
        }
    }

    pub fn get_image(&self, i: usize) -> (r: XorgImage)
        ensures
            r == self.image(i),
    {
        if i % 2 == 0 {
            self.first
        } else {
            self.second
        }
    }

    pub fn set_image(&mut self, i: usize, image: XorgImage)
        ensures
            *final(self) == old(self).with_image(i, image),
    {
        if i % 2 == 0 {
            self.first = image;
        } else {
            self.second = image;
        }
    }

    /// Takes the next image and the next serial for a presentation.
    pub fn present(&mut self) -> (r: Present)
        ensures
            r == (Present {
                image: (old(self).next_image % 2) as usize,
                pixmap: old(self).image(old(self).next_image).pixmap,
                serial: old(self).serial,
                target_msc: old(self).next_msc,
            }),
            *final(self) == (XorgOutput {
                next_image: vstd::wrapping::usize_specs::wrapping_add(old(self).next_image, 1),
                serial: vstd::wrapping::u32_specs::wrapping_add(old(self).serial, 1),
                ..*old(self)
            }),
    {
        let image = self.get_image(self.next_image);
        let r = Present {
            image: self.next_image % 2,
            pixmap: image.pixmap,
            serial: self.serial,
            target_msc: self.next_msc,
        };
        self.next_image = self.next_image.wrapping_add(1);
        self.serial = self.serial.wrapping_add(1);
        r
    }

    /// The server took a presentation: its image is in use under its serial.
    pub fn presented(&mut self, present: Present)
        ensures
            *final(self) == old(self).with_image(
                present.image,
                XorgImage {
                    idle: false,
                    last_serial: present.serial,
                    ..old(self).image(present.image)
                },
            ),
    {
        let image = self.get_image(present.image);
        self.set_image(present.image, XorgImage { idle: false, last_serial: present.serial, ..image });
    }

    /// The server has shown a frame: the next one is due one frame later. Where the
    /// next image is idle it is presented now; otherwise it is presented as soon as
    /// it is idle.
    pub fn handle_present_complete(&mut self, msc: u64) -> (r: bool)
        ensures
            r == old(self).image(old(self).next_image).idle,
            r ==> *final(self) == (XorgOutput {
                next_msc: vstd::wrapping::u64_specs::wrapping_add(msc, 1),
                ..*old(self)
            }),
            !r ==> *final(self) == (XorgOutput {
                next_msc: vstd::wrapping::u64_specs::wrapping_add(msc, 1),
                ..*old(self)
            }).with_image(
                old(self).next_image,
                XorgImage { render_on_idle: true, ..old(self).image(old(self).next_image) },
            ),
    {
        self.next_msc = msc.wrapping_add(1);
        let image = self.get_image(self.next_image);
        if image.idle {
            true
        } else {
            self.set_image(self.next_image, XorgImage { render_on_idle: true, ..image });
            false
        }
    }

    /// The server is done with the image that was presented under the serial.
    /// Says how many presentations are due now.
    pub fn handle_present_idle(&mut self, serial: u32) -> (r: usize)
        ensures
            final(self).first == old(self).first.spec_idle(serial),
            final(self).second == old(self).second.spec_idle(serial),
            (XorgOutput { first: old(self).first, second: old(self).second, ..*final(self) })
                == *old(self),
            r == (if old(self).first.last_serial == serial && old(self).first.render_on_idle {
                1int
            } else {
                0int
            }) + (if old(self).second.last_serial == serial && old(self).second.render_on_idle {
                1int
            } else {
                0int
            }),
    {
        let mut due: usize = 0;
        if self.first.last_serial == serial {
            if self.first.render_on_idle {
                due += 1;
            }
            self.first.idle = true;
            self.first.render_on_idle = false;
        }
        if self.second.last_serial == serial {
            if self.second.render_on_idle {
                due += 1;
            }
            self.second.idle = true;
            self.second.render_on_idle = false;
        }
        due
    }

    /// The window has a size; says whether it is another size than before.
    pub fn handle_configure(&mut self, width: i32, height: i32) -> (r: bool)
        ensures
            *final(self) == (XorgOutput { width, height, ..*old(self) }),
            r == (old(self).width != width || old(self).height != height),
    {
        let changed = self.width != width || self.height != height;
        self.width = width;
        self.height = height;
        changed
    }

    /// The window is gone.
    pub fn handle_destroy(&mut self)
        ensures
            *final(self) == (XorgOutput { removed: true, ..*old(self) }),
    {
        self.removed = true;
    }
}

impl XorgImage {
    /// The image after the server was done with the image that was presented
    /// under the serial.
    pub open spec fn spec_idle(self, serial: u32) -> XorgImage {
        if self.last_serial == serial {
            XorgImage { idle: true, render_on_idle: false, ..self }
        } else {
            self
        }
    }
}

/// The backend as far as it needs no connection to the server.
pub struct XorgBackend;

pub const EPOLLERR: i32 = 0x8;
pub const EPOLLHUP: i32 = 0x10;

impl XorgBackend {
    /// Whether the connection to the server can still be read, as the event loop
    /// reports it: not after an error and not after the other end hung up.
    pub fn dispatch(events: i32) -> (r: Result<(), XorgBackendError>)
        ensures
            r.is_ok() <==> events & (EPOLLERR | EPOLLHUP) == 0,
            r.is_err() ==> r == Err::<(), XorgBackendError>(XorgBackendError::ErrorEvent),
    {
        if events & (EPOLLERR | EPOLLHUP) != 0 {
            return Err(XorgBackendError::ErrorEvent);
        }
        Ok(())
    }

    /// What is done with an event of the server.
    pub fn handle_event(response_type: u8) -> (r: EventHandler)
        ensures
            r == spec_handle_event(response_type),
    {
        let ty: u8 = response_type & 0x7f;
        if ty == XCB_CONFIGURE_NOTIFY {
            EventHandler::Configure
        } else if ty == XCB_DESTROY_NOTIFY {
            EventHandler::Destroy
        } else if ty == XCB_GE_GENERIC {
            EventHandler::Generic
        } else {
            EventHandler::Ignored
        }
    }

    /// What is done with an event of an extension: it belongs to the input
    /// extension, to the present extension, or to neither.
    pub fn handle_generic(extension: u8, event_type: u16, input_opcode: u8, present_opcode: u8) -> (r:
        GenericHandler)
        ensures
            r == (if extension == input_opcode {
                spec_handle_input_event(event_type)
            } else if extension == present_opcode {
                spec_handle_present_event(event_type)
            } else {
                GenericHandler::Ignored
            }),
    {
        if extension == input_opcode {
            XorgBackend::handle_input_event(event_type)
        } else if extension == present_opcode {
            XorgBackend::handle_present_event(event_type)
        } else {
            GenericHandler::Ignored
        }
    }

    pub fn handle_present_event(event_type: u16) -> (r: GenericHandler)
        ensures
            r == spec_handle_present_event(event_type),
    {
        if event_type == XCB_PRESENT_COMPLETE_NOTIFY {
            GenericHandler::PresentComplete
        } else if event_type == XCB_PRESENT_IDLE_NOTIFY {
            GenericHandler::PresentIdle
        } else {
            GenericHandler::Ignored
        }
    }

    pub fn handle_input_event(event_type: u16) -> (r: GenericHandler)
        ensures
            r == spec_handle_input_event(event_type),
    {
        if event_type == XCB_INPUT_MOTION {
            GenericHandler::InputMotion
        } else if event_type == XCB_INPUT_ENTER {
            GenericHandler::InputEnter
        } else if event_type == XCB_INPUT_BUTTON_PRESS {
            GenericHandler::InputButton(KeyState::Pressed)
        } else if event_type == XCB_INPUT_BUTTON_RELEASE {
            GenericHandler::InputButton(KeyState::Released)
        } else if event_type == XCB_INPUT_KEY_PRESS {
            GenericHandler::InputKey(KeyState::Pressed)
        } else if event_type == XCB_INPUT_KEY_RELEASE {
            GenericHandler::InputKey(KeyState::Released)
        } else if event_type == XCB_INPUT_HIERARCHY {
            GenericHandler::InputHierarchy
        } else {
            GenericHandler::Ignored
        }
    }

    /// What a button of the server is to the compositor.
    pub fn handle_input_button_press(button: u32, state: KeyState) -> (r: Option<MouseEvent>)
        requires
            button <= u32::MAX - 0x10b,
        ensures
            r == spec_button(button, state),
    {
        if button >= 4 && button <= 7 {
            if state == KeyState::Pressed {
                Some(
                    if button == 4 {
                        MouseEvent::Scroll(-15i32, ScrollAxis::Vertical)
                    } else if button == 5 {
                        MouseEvent::Scroll(15, ScrollAxis::Vertical)
                    } else if button == 6 {
                        MouseEvent::Scroll(-15i32, ScrollAxis::Horizontal)
                    } else {
                        MouseEvent::Scroll(15, ScrollAxis::Horizontal)
                    },
                )
            } else {
                None
            }
        } else if button == 0 {
            None
        } else if button == 1 {
            Some(MouseEvent::Button(BTN_LEFT, state))
        } else if button == 2 {
            Some(MouseEvent::Button(BTN_MIDDLE, state))
        } else if button == 3 {
            Some(MouseEvent::Button(BTN_RIGHT, state))
        } else {
            Some(MouseEvent::Button(BTN_SIDE + (button - 8), state))
        }
    }

    /// What a key of the server is to the compositor: the key codes of the server
    /// lie 8 above those of the kernel.
    pub fn handle_input_key_press(detail: u32, state: KeyState) -> (r: KeyboardEvent)
        requires
            detail >= 8,
        ensures
            r == KeyboardEvent::Key((detail - 8) as u32, state),
    {
        KeyboardEvent::Key(detail - 8, state)
    }
}

/// The place of the first of the first `n` buttons of a mapping that the server
/// maps to `button`, counted from 1, or nothing.
pub open spec fn first_mapped(map: Seq<u8>, button: u8, n: int) -> Option<usize>
    decreases n,
{
    if n <= 0 || n > map.len() {
        None
    } else {
        match first_mapped(map, button, n - 1) {
            Some(i) => Some(i),
            None => if map[n - 1] == button {
                Some(n as usize)
            } else {
                None
            },
        }
    }
}

/// What the button map holds for a button that the server reports.
pub open spec fn mapped(m: Map<u64, usize>, button: u8) -> Option<usize> {
    lookup(m, button as u64)
}

/// A seat of the server: a keyboard with its mouse.
pub struct XorgSeat {
    pub kb: u16,
    pub mouse: u16,
    pub removed: bool,
    pub kb_events: VecDeque<KeyboardEvent>,
    pub mouse_events: VecDeque<MouseEvent>,
    /// For each button that the server reports, the first physical button that is
    /// mapped to it.
    pub button_map: CopyHashMap,
}

impl XorgSeat {
    pub fn new(kb: u16, mouse: u16) -> (r: XorgSeat)
        ensures
            r.kb == kb,
            r.mouse == mouse,
            !r.removed,
            r.kb_events@.len() == 0,
            r.mouse_events@.len() == 0,
            r.button_map@ == crate::utils::copyhashmap::no_entries(),
    {
        XorgSeat {
            kb,
            mouse,
            removed: false,
            kb_events: VecDeque::new(),
            mouse_events: VecDeque::new(),
            button_map: CopyHashMap::new(),
        }
    }

    /// Queues an event of the mouse.
    pub fn mouse_event(&mut self, event: MouseEvent)
        ensures
            final(self).mouse_events@ == old(self).mouse_events@.push(event),
            final(self).kb_events@ == old(self).kb_events@,
            final(self).button_map@ == old(self).button_map@,
            final(self).removed == old(self).removed,
    {
        self.mouse_events.push_back(event);
    }

    /// Queues an event of the keyboard.
    pub fn kb_event(&mut self, event: KeyboardEvent)
        ensures
            final(self).kb_events@ == old(self).kb_events@.push(event),
            final(self).mouse_events@ == old(self).mouse_events@,
            final(self).button_map@ == old(self).button_map@,
            final(self).removed == old(self).removed,
    {
        self.kb_events.push_back(event);
    }

    /// The oldest event of the mouse that waits, if one does.
    pub fn next_mouse_event(&mut self) -> (r: Option<MouseEvent>)
        ensures
            old(self).mouse_events@.len() == 0 ==> r.is_none() && final(self).mouse_events@.len()
                == 0,
            old(self).mouse_events@.len() > 0 ==> r == Some(old(self).mouse_events@[0])
                && final(self).mouse_events@ == old(self).mouse_events@.subrange(
                1,
                old(self).mouse_events@.len() as int,
            ),
            final(self).kb_events@ == old(self).kb_events@,
    {
        self.mouse_events.pop_front()
    }

    /// The oldest event of the keyboard that waits, if one does.
    pub fn next_kb_event(&mut self) -> (r: Option<KeyboardEvent>)
        ensures
            old(self).kb_events@.len() == 0 ==> r.is_none() && final(self).kb_events@.len() == 0,
            old(self).kb_events@.len() > 0 ==> r == Some(old(self).kb_events@[0]) && final(self).kb_events@ == old(self).kb_events@.subrange(1, old(self).kb_events@.len() as int),
            final(self).mouse_events@ == old(self).mouse_events@,
    {
        self.kb_events.pop_front()
    }

    /// Takes over the button mapping of the mouse as the server reports it: for
    /// each button that the mapping names, the first physical button mapped to it.
    pub fn update_button_map(&mut self, map: &Vec<u8>)
        ensures
            forall|button: u8|
                #[trigger] mapped(final(self).button_map@, button) == first_mapped(
                    map@,
                    button,
                    map@.len() as int,
                ),
            final(self).kb_events@ == old(self).kb_events@,
            final(self).mouse_events@ == old(self).mouse_events@,
    {
        self.button_map = CopyHashMap::new();
        let mut i: usize = 0;
        while i < map.len()
            invariant
                0 <= i <= map.len(),
                self.kb_events@ == old(self).kb_events@,
                self.mouse_events@ == old(self).mouse_events@,
                forall|button: u8|
                    #[trigger] mapped(self.button_map@, button) == first_mapped(
                        map@,
                        button,
                        i as int,
                    ),
            decreases map.len() - i,
        {
            let button: u8 = map[i];
            let ghost before = self.button_map@;
            if !self.button_map.contains(button as u64) {
                self.button_map.set(button as u64, i + 1);
            }
            proof {
                let now = self.button_map@;
                assert forall|other: u8| #[trigger]
                    mapped(now, other) == first_mapped(map@, other, i as int + 1) by {
                    assert(mapped(before, other) == first_mapped(map@, other, i as int));
                    if other != button {
                        assert(other as u64 != button as u64);
                    }
                }
            }
            i += 1;
        }
    }
}

} // verus!
