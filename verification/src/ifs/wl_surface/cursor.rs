//! Surfaces that are shown as the cursor of a seat.

use vstd::prelude::*;
use crate::rect::{clamp_i32, sat_sub};

verus! {

/// The use of a surface as the cursor of one seat.
#[derive(Copy, Clone, Debug, PartialEq, Eq, Structural)]
pub struct CursorSurface {
    pub surface: usize,
    pub seat: u32,
    /// The point of the surface that lies at the position of the pointer.
    pub hotspot_x: i32,
    pub hotspot_y: i32,
}

impl CursorSurface {
    pub open spec fn spec_set_hotspot(self, x: i32, y: i32) -> CursorSurface {
        CursorSurface { hotspot_x: x, hotspot_y: y, ..self }
    }

    /// The hotspot moves against a shift of the content, so that the same pixel
    /// stays under the pointer.
    pub open spec fn spec_dec_hotspot(self, dx: i32, dy: i32) -> CursorSurface {
        CursorSurface {
            hotspot_x: clamp_i32(self.hotspot_x - dx) as i32,
            hotspot_y: clamp_i32(self.hotspot_y - dy) as i32,
            ..self
        }
    }

    pub fn new(surface: usize, seat: u32) -> (r: CursorSurface)
        ensures
            r == (CursorSurface { surface, seat, hotspot_x: 0, hotspot_y: 0 }),
    {
        CursorSurface { surface, seat, hotspot_x: 0, hotspot_y: 0 }
    }

    pub fn set_hotspot(&mut self, x: i32, y: i32)
        ensures
            *final(self) == old(self).spec_set_hotspot(x, y),
    {
        self.hotspot_x = x;
        self.hotspot_y = y;
    }

    pub fn dec_hotspot(&mut self, dx: i32, dy: i32)
        ensures
            *final(self) == old(self).spec_dec_hotspot(dx, dy),
    {
        self.hotspot_x = sat_sub(self.hotspot_x, dx);
        self.hotspot_y = sat_sub(self.hotspot_y, dy);
    }
}

} // verus!
