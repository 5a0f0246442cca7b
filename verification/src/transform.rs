//! The eight ways in which a buffer can be rotated and flipped.

use vstd::prelude::*;

verus! {

#[derive(Copy, Clone, Debug, PartialEq, Eq, Hash, Structural)]
pub enum Transform {
    Normal,
    Rotate90,
    Rotate180,
    Rotate270,
    Flip,
    FlipRotate90,
    FlipRotate180,
    FlipRotate270,
}

pub const TF_NORMAL: i32 = 0;
pub const TF_90: i32 = 1;
pub const TF_180: i32 = 2;
pub const TF_270: i32 = 3;
pub const TF_FLIPPED: i32 = 4;
pub const TF_FLIPPED_90: i32 = 5;
pub const TF_FLIPPED_180: i32 = 6;
pub const TF_FLIPPED_270: i32 = 7;

impl Default for Transform {
    fn default() -> (r: Transform)
        ensures
            r == Transform::Normal,
    {
        Transform::Normal
    }
}

impl Transform {
    /// The number that the wire protocol uses for the transform.
    pub open spec fn spec_to_wl(self) -> int {
        match self {
            Transform::Normal => 0,
            Transform::Rotate90 => 1,
            Transform::Rotate180 => 2,
            Transform::Rotate270 => 3,
            Transform::Flip => 4,
            Transform::FlipRotate90 => 5,
            Transform::FlipRotate180 => 6,
            Transform::FlipRotate270 => 7,
        }
    }

    /// Whether the transform turns a buffer on its side.
    pub open spec fn swaps_dimensions(self) -> bool {
        match self {
            Transform::Rotate90 | Transform::Rotate270 | Transform::FlipRotate90
            | Transform::FlipRotate270 => true,
            _ => false,
        }
    }

    pub open spec fn spec_maybe_swap(self, size: (i32, i32)) -> (i32, i32) {
        if self.swaps_dimensions() {
            (size.1, size.0)
        } else {
            size
        }
    }

    pub fn to_wl(self) -> (r: i32)
        ensures
            r == self.spec_to_wl(),
    {
        match self {
            Transform::Normal => TF_NORMAL,
            Transform::Rotate90 => TF_90,
            Transform::Rotate180 => TF_180,
            Transform::Rotate270 => TF_270,
            Transform::Flip => TF_FLIPPED,
            Transform::FlipRotate90 => TF_FLIPPED_90,
            Transform::FlipRotate180 => TF_FLIPPED_180,
            Transform::FlipRotate270 => TF_FLIPPED_270,
        }
    }

    /// The transform with the given wire number, where there is one.
    pub fn from_wl(wl: i32) -> (r: Option<Transform>)
        ensures
            r.is_some() <==> 0 <= wl <= 7,
            r.is_some() ==> r.unwrap().spec_to_wl() == wl,
    {
        match wl {
            0 => Some(Transform::Normal),
            1 => Some(Transform::Rotate90),
            2 => Some(Transform::Rotate180),
            3 => Some(Transform::Rotate270),
            4 => Some(Transform::Flip),
            5 => Some(Transform::FlipRotate90),
            6 => Some(Transform::FlipRotate180),
            7 => Some(Transform::FlipRotate270),
            _ => None,
        }
    }

    /// The size of a buffer as it appears after the transform: width and height
    /// change places for the transforms that turn by a quarter.
    pub fn maybe_swap(self, size: (i32, i32)) -> (r: (i32, i32))
        ensures
            r == self.spec_maybe_swap(size),
    {
        match self {
            Transform::Rotate90 | Transform::Rotate270 | Transform::FlipRotate90
            | Transform::FlipRotate270 => (size.1, size.0),
            _ => size,
        }
    }
}

/// Going to the wire number and back gives the transform again.
pub proof fn lemma_wl_round_trip(t: Transform)
    ensures
        0 <= t.spec_to_wl() <= 7,
        forall|u: Transform| u.spec_to_wl() == t.spec_to_wl() ==> u == t,
{
}

} // verus!
