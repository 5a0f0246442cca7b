//! Signed fixed-point numbers with 8 fractional bits, as the wire protocol carries them.

use vstd::prelude::*;
use crate::rect::clamp_i32;

verus! {

/// A number of 256ths.
#[derive(Copy, Clone, Debug, PartialEq, Eq, Structural)]
pub struct Fixed(pub i32);

impl Fixed {
    /// The value in 256ths.
    pub open spec fn raw(self) -> int {
        self.0 as int
    }

    /// The largest integer that is not above the value.
    pub open spec fn spec_to_int(self) -> int {
        self.0 as int / 256
    }

    pub open spec fn spec_is_integer(self) -> bool {
        self.0 as int % 256 == 0
    }

    /// The fixed-point number of the integer `i`, saturating at the bounds of the type.
    pub fn from_int(i: i32) -> (r: Fixed)
        ensures
            r.raw() == clamp_i32(i * 256),
            -0x80_0000 <= i < 0x80_0000 ==> r.spec_to_int() == i && r.spec_is_integer(),
    {
        let v: i64 = i as i64 * 256;
        if v < i32::MIN as i64 {
            Fixed(i32::MIN)
        } else if v > i32::MAX as i64 {
            Fixed(i32::MAX)
        } else {
            Fixed(v as i32)
        }
    }

    /// The number of the given 256ths.
    pub fn from_raw(v: i32) -> (r: Fixed)
        ensures
            r.raw() == v,
    {
        Fixed(v)
    }

    /// The number nearest below a value with 16 fractional bits.
    pub fn from_1616(i: i32) -> (r: Fixed)
        ensures
            r.raw() == i as int / 256,
    {
        Fixed(floor_div_256(i))
    }

    pub fn to_int(self) -> (r: i32)
        ensures
            r == self.spec_to_int(),
    {
        floor_div_256(self.0)
    }

    pub fn round_down(self) -> (r: i32)
        ensures
            r == self.spec_to_int(),
    {
        floor_div_256(self.0)
    }

    pub fn is_integer(self) -> (r: bool)
        ensures
            r == self.spec_is_integer(),
    {
        let q: i32 = floor_div_256(self.0);
        q as i64 * 256 == self.0 as i64
    }
}

/// `v / 256`, rounded towards negative infinity.
pub fn floor_div_256(v: i32) -> (r: i32)
    ensures
        r == v as int / 256,
{
    let w: i64 = v as i64;
    if w >= 0 {
        (w / 256) as i32
    } else {
        let q: i64 = (255 - w) / 256;
        (-q) as i32
    }
}

} // verus!
