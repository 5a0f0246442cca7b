//! Positioners: the rules by which a popup is placed next to its parent.

use vstd::prelude::*;
use crate::rect::{clamp_i32, Rect};

verus! {

pub const DESTROY: u32 = 0;
pub const SET_SIZE: u32 = 1;
pub const SET_ANCHOR_RECT: u32 = 2;
pub const SET_ANCHOR: u32 = 3;
pub const SET_GRAVITY: u32 = 4;
pub const SET_CONSTRAINT_ADJUSTMENT: u32 = 5;
pub const SET_OFFSET: u32 = 6;
pub const SET_REACTIVE: u32 = 7;
pub const SET_PARENT_SIZE: u32 = 8;
pub const SET_PARENT_CONFIGURE: u32 = 9;

/// The code of the protocol error for a bad argument.
pub const INVALID_INPUT: u32 = 0;

pub const NONE: u32 = 0;
pub const TOP: u32 = 1;
pub const BOTTOM: u32 = 2;
pub const LEFT: u32 = 3;
pub const RIGHT: u32 = 4;
pub const TOP_LEFT: u32 = 5;
pub const BOTTOM_LEFT: u32 = 6;
pub const TOP_RIGHT: u32 = 7;
pub const BOTTOM_RIGHT: u32 = 8;

/// A set of edges of a rectangle, one bit for each edge.
#[derive(Copy, Clone, Debug, PartialEq, Eq, Structural)]
pub struct Square {
    pub bits: u32,
}

impl Default for Square {
    fn default() -> (r: Square)
        ensures
            r == Square::spec_empty(),
    {
        Square { bits: 0 }
    }
}

impl Square {
    pub open spec fn spec_empty() -> Square {
        Square { bits: 0 }
    }

    pub open spec fn spec_top() -> Square {
        Square { bits: 1 }
    }

    pub open spec fn spec_bottom() -> Square {
        Square { bits: 2 }
    }

    pub open spec fn spec_left() -> Square {
        Square { bits: 4 }
    }

    pub open spec fn spec_right() -> Square {
        Square { bits: 8 }
    }

    pub open spec fn spec_union(self, other: Square) -> Square {
        Square { bits: self.bits | other.bits }
    }

    /// Whether every edge of `other` is in the set.
    pub open spec fn spec_contains(self, other: Square) -> bool {
        self.bits & other.bits == other.bits
    }

    /// The edges that a value of the anchor and gravity enumeration names.
    pub open spec fn spec_from_enum(e: u32) -> Option<Square> {
        if e == NONE {
            Some(Square::spec_empty())
        } else if e == TOP {
            Some(Square::spec_top())
        } else if e == BOTTOM {
            Some(Square::spec_bottom())
        } else if e == LEFT {
            Some(Square::spec_left())
        } else if e == RIGHT {
            Some(Square::spec_right())
        } else if e == TOP_LEFT {
            Some(Square::spec_top().spec_union(Square::spec_left()))
        } else if e == BOTTOM_LEFT {
            Some(Square::spec_bottom().spec_union(Square::spec_left()))
        } else if e == TOP_RIGHT {
            Some(Square::spec_top().spec_union(Square::spec_right()))
        } else if e == BOTTOM_RIGHT {
            Some(Square::spec_bottom().spec_union(Square::spec_right()))
        } else {
            None
        }
    }

    pub fn empty() -> (r: Square)
        ensures
            r == Square::spec_empty(),
    {
        Square { bits: 0 }
    }

    pub fn top() -> (r: Square)
        ensures
            r == Square::spec_top(),
    {
        Square { bits: 1 }
    }

    pub fn bottom() -> (r: Square)
        ensures
            r == Square::spec_bottom(),
    {
        Square { bits: 2 }
    }

    pub fn left() -> (r: Square)
        ensures
            r == Square::spec_left(),
    {
        Square { bits: 4 }
    }

    pub fn right() -> (r: Square)
        ensures
            r == Square::spec_right(),
    {
        Square { bits: 8 }
    }

    pub fn union(self, other: Square) -> (r: Square)
        ensures
            r == self.spec_union(other),
    {
        Square { bits: self.bits | other.bits }
    }

    pub fn contains(&self, other: Square) -> (r: bool)
        ensures
            r == self.spec_contains(other),
    {
        self.bits & other.bits == other.bits
    }

    pub fn from_enum(e: u32) -> (r: Option<Square>)
        ensures
            r == Square::spec_from_enum(e),
            r.is_some() <==> e <= BOTTOM_RIGHT,
    {
        if e == NONE {
            Some(Square::empty())
        } else if e == TOP {
            Some(Square::top())
        } else if e == BOTTOM {
            Some(Square::bottom())
        } else if e == LEFT {
            Some(Square::left())
        } else if e == RIGHT {
            Some(Square::right())
        } else if e == TOP_LEFT {
            Some(Square::top().union(Square::left()))
        } else if e == BOTTOM_LEFT {
            Some(Square::bottom().union(Square::left()))
        } else if e == TOP_RIGHT {
            Some(Square::top().union(Square::right()))
        } else if e == BOTTOM_RIGHT {
            Some(Square::bottom().union(Square::right()))
        } else {
            None
        }
    }
}

/// The edges that the corner values of the enumeration name are the two edges of
/// the corner.
pub proof fn lemma_corners()
    ensures
        Square::spec_from_enum(TOP_LEFT) == Some(Square { bits: 5 }),
        Square::spec_from_enum(BOTTOM_LEFT) == Some(Square { bits: 6 }),
        Square::spec_from_enum(TOP_RIGHT) == Some(Square { bits: 9 }),
        Square::spec_from_enum(BOTTOM_RIGHT) == Some(Square { bits: 10 }),
        (Square { bits: 5 }).spec_contains(Square::spec_top()),
        (Square { bits: 5 }).spec_contains(Square::spec_left()),
        !(Square { bits: 5 }).spec_contains(Square::spec_right()),
        !(Square { bits: 5 }).spec_contains(Square::spec_bottom()),
{
    assert(1u32 | 4u32 == 5u32) by (bit_vector);
    assert(2u32 | 4u32 == 6u32) by (bit_vector);
    assert(1u32 | 8u32 == 9u32) by (bit_vector);
    assert(2u32 | 8u32 == 10u32) by (bit_vector);
    assert(5u32 & 1u32 == 1u32) by (bit_vector);
    assert(5u32 & 4u32 == 4u32) by (bit_vector);
    assert(5u32 & 8u32 != 8u32) by (bit_vector);
    assert(5u32 & 2u32 != 2u32) by (bit_vector);
}

/// The ways in which a popup that does not fit may be adjusted, one bit for each.
#[derive(Copy, Clone, Debug, PartialEq, Eq, Structural)]
pub struct CA {
    pub bits: u32,
}

pub const CA_NONE: u32 = 0;
pub const CA_SLIDE_X: u32 = 1;
pub const CA_SLIDE_Y: u32 = 2;
pub const CA_FLIP_X: u32 = 4;
pub const CA_FLIP_Y: u32 = 8;
pub const CA_RESIZE_X: u32 = 16;
pub const CA_RESIZE_Y: u32 = 32;

impl Default for CA {
    fn default() -> (r: CA)
        ensures
            r.bits == 0,
    {
        CA { bits: 0 }
    }
}

impl CA {
    /// Whether every adjustment of `other` is in the set.
    pub open spec fn spec_contains(self, other: CA) -> bool {
        self.bits & other.bits == other.bits
    }

    /// The set with the given bits, unless a bit stands for no adjustment.
    pub fn from_bits(bits: u32) -> (r: Option<CA>)
        ensures
            r.is_some() <==> bits < 64,
            r.is_some() ==> r.unwrap().bits == bits,
    {
        if bits < 64 {
            Some(CA { bits })
        } else {
            None
        }
    }

    pub fn bits(&self) -> (r: u32)
        ensures
            r == self.bits,
    {
        self.bits
    }

    pub fn contains(&self, other: CA) -> (r: bool)
        ensures
            r == self.spec_contains(other),
    {
        self.bits & other.bits == other.bits
    }
}

/// A set of bits holds no bit that stands for no adjustment exactly if it is below 64.
pub proof fn lemma_ca_bits(bits: u32)
    ensures
        bits < 64 <==> bits & !63u32 == 0,
{
    assert(bits < 64 <==> bits & !63u32 == 0) by (bit_vector);
}

#[derive(Copy, Clone, Debug, PartialEq, Eq, Structural)]
pub enum XdgPositionerError {
    NonPositiveSize,
    NegativeAnchorRect,
    UnknownAnchor(u32),
    UnknownGravity(u32),
    UnknownCa(u32),
    NegativeParentSize,
}

impl XdgPositionerError {
    /// The code of the protocol error that the client is sent with the error, for
    /// the errors that are reported to it that way.
    pub fn protocol_error(&self) -> (r: Option<u32>)
        ensures
            r == match *self {
                XdgPositionerError::NonPositiveSize | XdgPositionerError::NegativeAnchorRect
                | XdgPositionerError::NegativeParentSize => Some(INVALID_INPUT),
                _ => None,
            },
    {
        match self {
            XdgPositionerError::NonPositiveSize | XdgPositionerError::NegativeAnchorRect
            | XdgPositionerError::NegativeParentSize => Some(INVALID_INPUT),
            _ => None,
        }
    }
}

/// The rules of one positioner.
#[derive(Copy, Clone, Debug, PartialEq, Eq, Structural)]
pub struct XdgPositioned {
    pub size_width: i32,
    pub size_height: i32,
    /// The anchor rectangle, relative to the parent.
    pub ar: Rect,
    pub anchor: Square,
    pub gravity: Square,
    pub ca: CA,
    pub off_x: i32,
    pub off_y: i32,
    pub reactive: bool,
    pub parent_width: i32,
    pub parent_height: i32,
    pub parent_serial: u32,
}

impl Default for XdgPositioned {
    fn default() -> (r: XdgPositioned)
        ensures
            r == XdgPositioned::spec_default(),
    {
        XdgPositioned {
            size_width: 0,
            size_height: 0,
            ar: Rect::new_empty(0, 0),
            anchor: Square::empty(),
            gravity: Square::empty(),
            ca: CA { bits: 0 },
            off_x: 0,
            off_y: 0,
            reactive: false,
            parent_width: 0,
            parent_height: 0,
            parent_serial: 0,
        }
    }
}

impl XdgPositioned {
    pub open spec fn spec_default() -> XdgPositioned {
        XdgPositioned {
            size_width: 0,
            size_height: 0,
            ar: Rect::spec_empty(0, 0),
            anchor: Square::spec_empty(),
            gravity: Square::spec_empty(),
            ca: CA { bits: 0 },
            off_x: 0,
            off_y: 0,
            reactive: false,
            parent_width: 0,
            parent_height: 0,
            parent_serial: 0,
        }
    }

    /// The sizes are ones that the requests let through.
    pub open spec fn wf(self) -> bool {
        self.size_width >= 0 && self.size_height >= 0 && self.ar.wf()
    }

    pub open spec fn spec_is_complete(self) -> bool {
        self.size_height != 0 && self.size_width != 0
    }

    /// The point of the anchor rectangle that the popup is anchored to, on one axis:
    /// the near edge, the far edge, or the middle.
    pub open spec fn anchor_point(near: bool, far: bool, lo: int, hi: int) -> int {
        if near {
            lo
        } else if far {
            hi
        } else {
            lo + clamp_i32(hi - lo) / 2
        }
    }

    /// How far the popup reaches back from the anchor point on one axis: by its
    /// whole size, not at all, or by half of its size.
    pub open spec fn gravity_shift(near: bool, far: bool, size: int) -> int {
        if near {
            size
        } else if far {
            0
        } else {
            size / 2
        }
    }

    /// The horizontal position of the popup, before it is brought into the range of
    /// coordinates.
    pub open spec fn spec_x(self) -> int {
        self.off_x + XdgPositioned::anchor_point(
            self.anchor.spec_contains(Square::spec_left()),
            self.anchor.spec_contains(Square::spec_right()),
            self.ar.x1 as int,
            self.ar.x2 as int,
        ) - XdgPositioned::gravity_shift(
            self.gravity.spec_contains(Square::spec_left()),
            self.gravity.spec_contains(Square::spec_right()),
            self.size_width as int,
        )
    }

    /// The vertical position of the popup, before it is brought into the range of
    /// coordinates. It starts from the horizontal offset.
    pub open spec fn spec_y(self) -> int {
        self.off_x + XdgPositioned::anchor_point(
            self.anchor.spec_contains(Square::spec_top()),
            self.anchor.spec_contains(Square::spec_bottom()),
            self.ar.y1 as int,
            self.ar.y2 as int,
        ) - XdgPositioned::gravity_shift(
            self.gravity.spec_contains(Square::spec_top()),
            self.gravity.spec_contains(Square::spec_bottom()),
            self.size_height as int,
        )
    }

    /// Whether a size was set.
    pub fn is_complete(&self) -> (r: bool)
        ensures
            r == self.spec_is_complete(),
    {
        self.size_height != 0 && self.size_width != 0
    }

    /// The rectangle of the popup relative to its parent: of the size that was set,
    /// anchored to the anchor rectangle and reaching from there as the gravity says.
    pub fn get_position(&self) -> (r: Rect)
        requires
            self.wf(),
        ensures
            r == Rect::spec_sized(
                clamp_i32(self.spec_x()) as i32,
                clamp_i32(self.spec_y()) as i32,
                self.size_width as int,
                self.size_height as int,
            ),
            r.wf(),
    {
        let mut x1: i64 = self.off_x as i64;
        let mut y1: i64 = self.off_x as i64;
        if self.anchor.contains(Square::left()) {
            x1 += self.ar.x1() as i64;
        } else if self.anchor.contains(Square::right()) {
            x1 += self.ar.x2() as i64;
        } else {
            x1 += self.ar.x1() as i64 + (self.ar.width() / 2) as i64;
        }
        if self.anchor.contains(Square::top()) {
            y1 += self.ar.y1() as i64;
        } else if self.anchor.contains(Square::bottom()) {
            y1 += self.ar.y2() as i64;
        } else {
            y1 += self.ar.y1() as i64 + (self.ar.height() / 2) as i64;
        }
        if self.gravity.contains(Square::left()) {
            x1 -= self.size_width as i64;
        } else if !self.gravity.contains(Square::right()) {
            x1 -= (self.size_width / 2) as i64;
        }
        if self.gravity.contains(Square::top()) {
            y1 -= self.size_height as i64;
        } else if !self.gravity.contains(Square::bottom()) {
            y1 -= (self.size_height / 2) as i64;
        }
        let x: i32 = clamp_to_i32(x1);
        let y: i32 = clamp_to_i32(y1);
        match Rect::new_sized(x, y, self.size_width, self.size_height) {
            Some(r) => r,
            None => Rect::new_empty(x, y),
        }
    }
}

/// The nearest `i32` to `v`.
pub fn clamp_to_i32(v: i64) -> (r: i32)
    ensures
        r == clamp_i32(v as int),
{
    if v < i32::MIN as i64 {
        i32::MIN
    } else if v > i32::MAX as i64 {
        i32::MAX
    } else {
        v as i32
    }
}

/// A request to a positioner.
#[derive(Copy, Clone, Debug, PartialEq, Eq, Structural)]
pub enum PositionerRequest {
    Destroy,
    SetSize { width: i32, height: i32 },
    SetAnchorRect { x: i32, y: i32, width: i32, height: i32 },
    SetAnchor { anchor: u32 },
    SetGravity { gravity: u32 },
    SetConstraintAdjustment { constraint_adjustment: u32 },
    SetOffset { x: i32, y: i32 },
    SetReactive,
    SetParentSize { parent_width: i32, parent_height: i32 },
    SetParentConfigure { serial: u32 },
}

impl PositionerRequest {
    /// The number of the request on the wire.
    pub open spec fn spec_opcode(self) -> u32 {
        match self {
            PositionerRequest::Destroy => DESTROY,
            PositionerRequest::SetSize { .. } => SET_SIZE,
            PositionerRequest::SetAnchorRect { .. } => SET_ANCHOR_RECT,
            PositionerRequest::SetAnchor { .. } => SET_ANCHOR,
            PositionerRequest::SetGravity { .. } => SET_GRAVITY,
            PositionerRequest::SetConstraintAdjustment { .. } => SET_CONSTRAINT_ADJUSTMENT,
            PositionerRequest::SetOffset { .. } => SET_OFFSET,
            PositionerRequest::SetReactive => SET_REACTIVE,
            PositionerRequest::SetParentSize { .. } => SET_PARENT_SIZE,
            PositionerRequest::SetParentConfigure { .. } => SET_PARENT_CONFIGURE,
        }
    }

    pub fn opcode(&self) -> (r: u32)
        ensures
            r == self.spec_opcode(),
    {
        match self {
            PositionerRequest::Destroy => DESTROY,
            PositionerRequest::SetSize { .. } => SET_SIZE,
            PositionerRequest::SetAnchorRect { .. } => SET_ANCHOR_RECT,
            PositionerRequest::SetAnchor { .. } => SET_ANCHOR,
            PositionerRequest::SetGravity { .. } => SET_GRAVITY,
            PositionerRequest::SetConstraintAdjustment { .. } => SET_CONSTRAINT_ADJUSTMENT,
            PositionerRequest::SetOffset { .. } => SET_OFFSET,
            PositionerRequest::SetReactive => SET_REACTIVE,
            PositionerRequest::SetParentSize { .. } => SET_PARENT_SIZE,
            PositionerRequest::SetParentConfigure { .. } => SET_PARENT_CONFIGURE,
        }
    }
}

/// A positioner object of a client.
#[derive(Copy, Clone, Debug)]
pub struct XdgPositioner {
    pub id: u32,
    /// The version of the shell object that made the positioner.
    pub version: u32,
    pub position: XdgPositioned,
    pub destroyed: bool,
}

impl XdgPositioner {
    pub open spec fn wf(self) -> bool {
        self.position.wf()
    }

    /// How many requests the positioner has in its version.
    pub open spec fn spec_num_requests(self) -> u32 {
        if self.version < 3 {
            (SET_OFFSET + 1) as u32
        } else {
            (SET_PARENT_CONFIGURE + 1) as u32
        }
    }

    /// A positioner without any rule.
    pub fn new(version: u32, id: u32) -> (r: XdgPositioner)
        ensures
            r == (XdgPositioner {
                id,
                version,
                position: XdgPositioned::spec_default(),
                destroyed: false,
            }),
            r.wf(),
    {
        XdgPositioner { id, version, position: XdgPositioned::default(), destroyed: false }
    }

    /// The rules as they stand.
    pub fn value(&self) -> (r: XdgPositioned)
        ensures
            r == self.position,
    {
        self.position
    }

    pub fn num_requests(&self) -> (r: u32)
        ensures
            r == self.spec_num_requests(),
    {
        if self.version < 3 {
            SET_OFFSET + 1
        } else {
            SET_PARENT_CONFIGURE + 1
        }
    }

    pub fn destroy(&mut self)
        ensures
            *final(self) == (XdgPositioner { destroyed: true, ..*old(self) }),
    {
        self.destroyed = true;
    }

    /// Sets the size of the popup, which has to be positive.
    pub fn set_size(&mut self, width: i32, height: i32) -> (r: Result<(), XdgPositionerError>)
        ensures
            r.is_ok() <==> (width > 0 && height > 0),
            r.is_err() ==> r == Err::<(), XdgPositionerError>(XdgPositionerError::NonPositiveSize)
                && *final(self) == *old(self),
            r.is_ok() ==> *final(self) == (XdgPositioner {
                position: XdgPositioned {
                    size_width: width,
                    size_height: height,
                    ..old(self).position
                },
                ..*old(self)
            }),
    {
        if width <= 0 || height <= 0 {
            return Err(XdgPositionerError::NonPositiveSize);
        }
        self.position.size_width = width;
        self.position.size_height = height;
        Ok(())
    }

    /// Sets the anchor rectangle, whose size must not be negative.
    pub fn set_anchor_rect(&mut self, x: i32, y: i32, width: i32, height: i32) -> (r: Result<
        (),
        XdgPositionerError,
    >)
        ensures
            r.is_ok() <==> (width >= 0 && height >= 0),
            r.is_err() ==> r == Err::<(), XdgPositionerError>(
                XdgPositionerError::NegativeAnchorRect,
            ) && *final(self) == *old(self),
            r.is_ok() ==> *final(self) == (XdgPositioner {
                position: XdgPositioned {
                    ar: Rect::spec_sized(x, y, width as int, height as int),
                    ..old(self).position
                },
                ..*old(self)
            }),
    {
        match Rect::new_sized(x, y, width, height) {
            Some(ar) => {
                self.position.ar = ar;
                Ok(())
            },
            None => Err(XdgPositionerError::NegativeAnchorRect),
        }
    }

    /// Sets the edges of the anchor rectangle that the popup is anchored to.
    pub fn set_anchor(&mut self, anchor: u32) -> (r: Result<(), XdgPositionerError>)
        ensures
            r.is_ok() <==> anchor <= BOTTOM_RIGHT,
            r.is_err() ==> r == Err::<(), XdgPositionerError>(
                XdgPositionerError::UnknownAnchor(anchor),
            ) && *final(self) == *old(self),
            r.is_ok() ==> *final(self) == (XdgPositioner {
                position: XdgPositioned {
                    anchor: Square::spec_from_enum(anchor)->0,
                    ..old(self).position
                },
                ..*old(self)
            }),
    {
        match Square::from_enum(anchor) {
            Some(a) => {
                self.position.anchor = a;
                Ok(())
            },
            None => Err(XdgPositionerError::UnknownAnchor(anchor)),
        }
    }

    /// Sets the direction in which the popup reaches from its anchor.
    pub fn set_gravity(&mut self, gravity: u32) -> (r: Result<(), XdgPositionerError>)
        ensures
            r.is_ok() <==> gravity <= BOTTOM_RIGHT,
            r.is_err() ==> r == Err::<(), XdgPositionerError>(
                XdgPositionerError::UnknownGravity(gravity),
            ) && *final(self) == *old(self),
            r.is_ok() ==> *final(self) == (XdgPositioner {
                position: XdgPositioned {
                    gravity: Square::spec_from_enum(gravity)->0,
                    ..old(self).position
                },
                ..*old(self)
            }),
    {
        match Square::from_enum(gravity) {
            Some(g) => {
                self.position.gravity = g;
                Ok(())
            },
            None => Err(XdgPositionerError::UnknownGravity(gravity)),
        }
    }

    pub fn set_constraint_adjustment(&mut self, constraint_adjustment: u32) -> (r: Result<
        (),
        XdgPositionerError,
    >)
        ensures
            r.is_ok() <==> constraint_adjustment < 64,
            r.is_err() ==> r == Err::<(), XdgPositionerError>(
                XdgPositionerError::UnknownCa(constraint_adjustment),
            ) && *final(self) == *old(self),
            r.is_ok() ==> *final(self) == (XdgPositioner {
                position: XdgPositioned {
                    ca: CA { bits: constraint_adjustment },
                    ..old(self).position
                },
                ..*old(self)
            }),
    {
        match CA::from_bits(constraint_adjustment) {
            Some(ca) => {
                self.position.ca = ca;
                Ok(())
            },
            None => Err(XdgPositionerError::UnknownCa(constraint_adjustment)),
        }
    }

    pub fn set_offset(&mut self, x: i32, y: i32)
        ensures
            *final(self) == (XdgPositioner {
                position: XdgPositioned { off_x: x, off_y: y, ..old(self).position },
                ..*old(self)
            }),
    {
        self.position.off_x = x;
        self.position.off_y = y;
    }

    pub fn set_reactive(&mut self)
        ensures
            *final(self) == (XdgPositioner {
                position: XdgPositioned { reactive: true, ..old(self).position },
                ..*old(self)
            }),
    {
        self.position.reactive = true;
    }

    /// Sets the size that the parent will have, which must not be negative.
    pub fn set_parent_size(&mut self, parent_width: i32, parent_height: i32) -> (r: Result<
        (),
        XdgPositionerError,
    >)
        ensures
            r.is_ok() <==> (parent_width >= 0 && parent_height >= 0),
            r.is_err() ==> r == Err::<(), XdgPositionerError>(
                XdgPositionerError::NegativeParentSize,
            ) && *final(self) == *old(self),
            r.is_ok() ==> *final(self) == (XdgPositioner {
                position: XdgPositioned { parent_width, parent_height, ..old(self).position },
                ..*old(self)
            }),
    {
        if parent_width < 0 || parent_height < 0 {
            return Err(XdgPositionerError::NegativeParentSize);
        }
        self.position.parent_width = parent_width;
        self.position.parent_height = parent_height;
        Ok(())
    }

    pub fn set_parent_configure(&mut self, serial: u32)
        ensures
            *final(self) == (XdgPositioner {
                position: XdgPositioned { parent_serial: serial, ..old(self).position },
                ..*old(self)
            }),
    {
        self.position.parent_serial = serial;
    }

    /// The rules after a request that is accepted.
    pub open spec fn spec_updated(self, request: PositionerRequest) -> XdgPositioned {
        let position = self.position;
        match request {
            PositionerRequest::Destroy => position,
            PositionerRequest::SetSize { width, height } => XdgPositioned {
                size_width: width,
                size_height: height,
                ..position
            },
            PositionerRequest::SetAnchorRect { x, y, width, height } => XdgPositioned {
                ar: Rect::spec_sized(x, y, width as int, height as int),
                ..position
            },
            PositionerRequest::SetAnchor { anchor } => XdgPositioned {
                anchor: Square::spec_from_enum(anchor)->0,
                ..position
            },
            PositionerRequest::SetGravity { gravity } => XdgPositioned {
                gravity: Square::spec_from_enum(gravity)->0,
                ..position
            },
            PositionerRequest::SetConstraintAdjustment { constraint_adjustment } => XdgPositioned {
                ca: CA { bits: constraint_adjustment },
                ..position
            },
            PositionerRequest::SetOffset { x, y } => XdgPositioned { off_x: x, off_y: y, ..position },
            PositionerRequest::SetReactive => XdgPositioned { reactive: true, ..position },
            PositionerRequest::SetParentSize { parent_width, parent_height } => XdgPositioned {
                parent_width,
                parent_height,
                ..position
            },
            PositionerRequest::SetParentConfigure { serial } => XdgPositioned {
                parent_serial: serial,
                ..position
            },
        }
    }

    /// The positioner after a request. A request that is refused changes nothing.
    pub open spec fn spec_handle(self, request: PositionerRequest) -> XdgPositioner {
        match spec_refusal(request) {
            Some(_) => self,
            None => XdgPositioner {
                position: self.spec_updated(request),
                destroyed: self.destroyed || request == PositionerRequest::Destroy,
                ..self
            },
        }
    }

    /// Carries out a request that the positioner has in its version.
    pub fn handle_request_(&mut self, request: PositionerRequest) -> (r: Result<
        (),
        XdgPositionerError,
    >)
        requires
            request.spec_opcode() < old(self).spec_num_requests(),
            old(self).wf(),
        ensures
            final(self).wf(),
            *final(self) == old(self).spec_handle(request),
            match spec_refusal(request) {
                Some(e) => r == Err::<(), XdgPositionerError>(e),
                None => r.is_ok(),
            },
    {
        match request {
            PositionerRequest::Destroy => {
                self.destroy();
                Ok(())
            },
            PositionerRequest::SetSize { width, height } => {
                let r = self.set_size(width, height);
                r
            },
            PositionerRequest::SetAnchorRect { x, y, width, height } => {
                let r = self.set_anchor_rect(x, y, width, height);
                r
            },
            PositionerRequest::SetAnchor { anchor } => {
                let r = self.set_anchor(anchor);
                r
            },
            PositionerRequest::SetGravity { gravity } => {
                let r = self.set_gravity(gravity);
                r
            },
            PositionerRequest::SetConstraintAdjustment { constraint_adjustment } =>
                self.set_constraint_adjustment(constraint_adjustment),
            PositionerRequest::SetOffset { x, y } => {
                self.set_offset(x, y);
                Ok(())
            },
            PositionerRequest::SetReactive => {
                self.set_reactive();
                Ok(())
            },
            PositionerRequest::SetParentSize { parent_width, parent_height } => self.set_parent_size(
                parent_width,
                parent_height,
            ),
            PositionerRequest::SetParentConfigure { serial } => {
                self.set_parent_configure(serial);
                Ok(())
            },
        }
    }

    /// Carries out a request, unless the positioner has no such request in its version.
    pub fn handle_request(&mut self, request: PositionerRequest) -> (r: Option<
        Result<(), XdgPositionerError>,
    >)
        requires
            old(self).wf(),
        ensures
            final(self).wf(),
            r.is_some() <==> request.spec_opcode() < old(self).spec_num_requests(),
            r.is_none() ==> *final(self) == *old(self),
            r matches Some(res) ==> *final(self) == old(self).spec_handle(request) && (
            match spec_refusal(request) {
                Some(e) => res == Err::<(), XdgPositionerError>(e),
                None => res.is_ok(),
            }),
    {
        if request.opcode() < self.num_requests() {
            Some(self.handle_request_(request))
        } else {
            None
        }
    }
}

/// Why a request to a positioner is refused, if it is: a size that is not positive,
/// a negative size of the anchor rectangle or of the parent, or a value that names
/// no anchor, no gravity or no adjustment.
pub open spec fn spec_refusal(request: PositionerRequest) -> Option<XdgPositionerError> {
    match request {
        PositionerRequest::SetSize { width, height } => if width <= 0 || height <= 0 {
            Some(XdgPositionerError::NonPositiveSize)
        } else {
            None
        },
        PositionerRequest::SetAnchorRect { width, height, .. } => if width < 0 || height < 0 {
            Some(XdgPositionerError::NegativeAnchorRect)
        } else {
            None
        },
        PositionerRequest::SetAnchor { anchor } => if anchor > BOTTOM_RIGHT {
            Some(XdgPositionerError::UnknownAnchor(anchor))
        } else {
            None
        },
        PositionerRequest::SetGravity { gravity } => if gravity > BOTTOM_RIGHT {
            Some(XdgPositionerError::UnknownGravity(gravity))
        } else {
            None
        },
        PositionerRequest::SetConstraintAdjustment { constraint_adjustment } =>
            if constraint_adjustment >= 64 {
                Some(XdgPositionerError::UnknownCa(constraint_adjustment))
            } else {
                None
            },
        PositionerRequest::SetParentSize { parent_width, parent_height } => if parent_width < 0
            || parent_height < 0 {
            Some(XdgPositionerError::NegativeParentSize)
        } else {
            None
        },
        _ => None,
    }
}

} // verus!
