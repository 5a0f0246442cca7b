//! Axis-aligned integer rectangles and regions.
//!
//! A rectangle is half-open: it covers the points `(x, y)` with
//! `x1 <= x < x2` and `y1 <= y < y2`. All arithmetic on coordinates
//! saturates at the bounds of `i32`, so every operation is total.

use vstd::prelude::*;

verus! {

/// The nearest `i32` to `v`.
pub open spec fn clamp_i32(v: int) -> int {
    if v < i32::MIN {
        i32::MIN as int
    } else if v > i32::MAX {
        i32::MAX as int
    } else {
        v
    }
}

pub open spec fn min_int(a: int, b: int) -> int {
    if a <= b {
        a
    } else {
        b
    }
}

pub open spec fn max_int(a: int, b: int) -> int {
    if a >= b {
        a
    } else {
        b
    }
}

/// `a + b`, saturating at the bounds of `i32`.
pub fn sat_add(a: i32, b: i32) -> (r: i32)
    ensures
        r == clamp_i32(a + b),
{
    let s: i64 = a as i64 + b as i64;
    if s < i32::MIN as i64 {
        i32::MIN
    } else if s > i32::MAX as i64 {
        i32::MAX
    } else {
        s as i32
    }
}

/// `a - b`, saturating at the bounds of `i32`.
pub fn sat_sub(a: i32, b: i32) -> (r: i32)
    ensures
        r == clamp_i32(a - b),
{
    let s: i64 = a as i64 - b as i64;
    if s < i32::MIN as i64 {
        i32::MIN
    } else if s > i32::MAX as i64 {
        i32::MAX
    } else {
        s as i32
    }
}

#[derive(Copy, Clone, Debug, PartialEq, Eq, Structural)]
pub struct Rect {
    pub x1: i32,
    pub y1: i32,
    pub x2: i32,
    pub y2: i32,
}

impl Default for Rect {
    fn default() -> (r: Rect)
        ensures
            r == Rect::spec_empty(0, 0),
    {
        Rect { x1: 0, y1: 0, x2: 0, y2: 0 }
    }
}

impl Rect {
    /// The corners are ordered.
    pub open spec fn wf(self) -> bool {
        self.x1 <= self.x2 && self.y1 <= self.y2
    }

    pub open spec fn spec_empty(x: i32, y: i32) -> Rect {
        Rect { x1: x, y1: y, x2: x, y2: y }
    }

    pub open spec fn spec_width(self) -> int {
        clamp_i32(self.x2 - self.x1)
    }

    pub open spec fn spec_height(self) -> int {
        clamp_i32(self.y2 - self.y1)
    }

    pub open spec fn spec_is_empty(self) -> bool {
        self.x1 == self.x2 || self.y1 == self.y2
    }

    pub open spec fn spec_contains(self, x: int, y: int) -> bool {
        self.x1 <= x < self.x2 && self.y1 <= y < self.y2
    }

    pub open spec fn spec_intersects(self, other: Rect) -> bool {
        self.x1 < other.x2 && other.x1 < self.x2 && self.y1 < other.y2 && other.y1 < self.y2
    }

    /// The smallest rectangle that covers both.
    pub open spec fn spec_union(self, other: Rect) -> Rect {
        Rect {
            x1: min_int(self.x1 as int, other.x1 as int) as i32,
            y1: min_int(self.y1 as int, other.y1 as int) as i32,
            x2: max_int(self.x2 as int, other.x2 as int) as i32,
            y2: max_int(self.y2 as int, other.y2 as int) as i32,
        }
    }

    /// The common part of both, or an empty rectangle where they do not overlap.
    pub open spec fn spec_intersect(self, other: Rect) -> Rect {
        let x1 = max_int(self.x1 as int, other.x1 as int);
        let y1 = max_int(self.y1 as int, other.y1 as int);
        let x2 = max_int(x1, min_int(self.x2 as int, other.x2 as int));
        let y2 = max_int(y1, min_int(self.y2 as int, other.y2 as int));
        Rect { x1: x1 as i32, y1: y1 as i32, x2: x2 as i32, y2: y2 as i32 }
    }

    pub open spec fn spec_move(self, dx: int, dy: int) -> Rect {
        Rect {
            x1: clamp_i32(self.x1 + dx) as i32,
            y1: clamp_i32(self.y1 + dy) as i32,
            x2: clamp_i32(self.x2 + dx) as i32,
            y2: clamp_i32(self.y2 + dy) as i32,
        }
    }

    /// The rectangle of the given size whose first corner is `(x1, y1)`.
    pub open spec fn spec_sized(x1: i32, y1: i32, width: int, height: int) -> Rect {
        Rect {
            x1,
            y1,
            x2: clamp_i32(x1 + width) as i32,
            y2: clamp_i32(y1 + height) as i32,
        }
    }

    pub open spec fn spec_at_point(self, x: i32, y: i32) -> Rect {
        Rect::spec_sized(x, y, self.spec_width(), self.spec_height())
    }

    pub open spec fn spec_with_size(self, width: int, height: int) -> Rect {
        Rect::spec_sized(self.x1, self.y1, width, height)
    }

    pub fn new_empty(x: i32, y: i32) -> (r: Rect)
        ensures
            r == Rect::spec_empty(x, y),
            r.wf(),
            r.spec_is_empty(),
    {
        Rect { x1: x, y1: y, x2: x, y2: y }
    }

    /// The rectangle with the given corners, unless they are out of order.
    pub fn new(x1: i32, y1: i32, x2: i32, y2: i32) -> (r: Option<Rect>)
        ensures
            r.is_some() <==> (x1 <= x2 && y1 <= y2),
            r.is_some() ==> r.unwrap() == (Rect { x1, y1, x2, y2 }) && r.unwrap().wf(),
    {
        if x1 > x2 || y1 > y2 {
            None
        } else {
            Some(Rect { x1, y1, x2, y2 })
        }
    }

    /// The rectangle of the given size at `(x1, y1)`, unless a size is negative.
    pub fn new_sized(x1: i32, y1: i32, width: i32, height: i32) -> (r: Option<Rect>)
        ensures
            r.is_some() <==> (width >= 0 && height >= 0),
            r.is_some() ==> r.unwrap() == Rect::spec_sized(x1, y1, width as int, height as int)
                && r.unwrap().wf(),
    {
        if width < 0 || height < 0 {
            None
        } else {
            Some(Rect { x1, y1, x2: sat_add(x1, width), y2: sat_add(y1, height) })
        }
    }

    pub fn x1(&self) -> (r: i32)
        ensures
            r == self.x1,
    {
        self.x1
    }

    pub fn y1(&self) -> (r: i32)
        ensures
            r == self.y1,
    {
        self.y1
    }

    pub fn x2(&self) -> (r: i32)
        ensures
            r == self.x2,
    {
        self.x2
    }

    pub fn y2(&self) -> (r: i32)
        ensures
            r == self.y2,
    {
        self.y2
    }

    pub fn width(&self) -> (r: i32)
        ensures
            r == self.spec_width(),
            self.wf() ==> r >= 0,
    {
        sat_sub(self.x2, self.x1)
    }

    pub fn height(&self) -> (r: i32)
        ensures
            r == self.spec_height(),
            self.wf() ==> r >= 0,
    {
        sat_sub(self.y2, self.y1)
    }

    pub fn size(&self) -> (r: (i32, i32))
        ensures
            r.0 == self.spec_width(),
            r.1 == self.spec_height(),
            self.wf() ==> r.0 >= 0 && r.1 >= 0,
    {
        (self.width(), self.height())
    }

    pub fn position(&self) -> (r: (i32, i32))
        ensures
            r == (self.x1, self.y1),
    {
        (self.x1, self.y1)
    }

    pub fn is_empty(&self) -> (r: bool)
        ensures
            r == self.spec_is_empty(),
    {
        self.x1 == self.x2 || self.y1 == self.y2
    }

    pub fn contains(&self, x: i32, y: i32) -> (r: bool)
        ensures
            r == self.spec_contains(x as int, y as int),
    {
        self.x1 <= x && self.y1 <= y && self.x2 > x && self.y2 > y
    }

    pub fn intersects(&self, other: &Rect) -> (r: bool)
        ensures
            r == self.spec_intersects(*other),
    {
        self.x1 < other.x2 && other.x1 < self.x2 && self.y1 < other.y2 && other.y1 < self.y2
    }

    pub fn union(&self, other: Rect) -> (r: Rect)
        ensures
            r == self.spec_union(other),
            self.wf() && other.wf() ==> r.wf(),
    {
        Rect {
            x1: if self.x1 <= other.x1 { self.x1 } else { other.x1 },
            y1: if self.y1 <= other.y1 { self.y1 } else { other.y1 },
            x2: if self.x2 >= other.x2 { self.x2 } else { other.x2 },
            y2: if self.y2 >= other.y2 { self.y2 } else { other.y2 },
        }
    }

    pub fn intersect(&self, other: Rect) -> (r: Rect)
        ensures
            r == self.spec_intersect(other),
            r.wf(),
    {
        let x1: i32 = if self.x1 >= other.x1 { self.x1 } else { other.x1 };
        let y1: i32 = if self.y1 >= other.y1 { self.y1 } else { other.y1 };
        let mx: i32 = if self.x2 <= other.x2 { self.x2 } else { other.x2 };
        let my: i32 = if self.y2 <= other.y2 { self.y2 } else { other.y2 };
        Rect { x1, y1, x2: if x1 >= mx { x1 } else { mx }, y2: if y1 >= my { y1 } else { my } }
    }

    /// The rectangle shifted by `(dx, dy)`.
    pub fn move_(&self, dx: i32, dy: i32) -> (r: Rect)
        ensures
            r == self.spec_move(dx as int, dy as int),
            self.wf() ==> r.wf(),
    {
        Rect {
            x1: sat_add(self.x1, dx),
            y1: sat_add(self.y1, dy),
            x2: sat_add(self.x2, dx),
            y2: sat_add(self.y2, dy),
        }
    }

    /// The point `(x, y)` in coordinates relative to the first corner.
    pub fn translate(&self, x: i32, y: i32) -> (r: (i32, i32))
        ensures
            r.0 == clamp_i32(x - self.x1),
            r.1 == clamp_i32(y - self.y1),
    {
        (sat_sub(x, self.x1), sat_sub(y, self.y1))
    }

    /// The point `(x, y)`, given relative to the first corner, in absolute coordinates.
    pub fn translate_inv(&self, x: i32, y: i32) -> (r: (i32, i32))
        ensures
            r.0 == clamp_i32(x + self.x1),
            r.1 == clamp_i32(y + self.y1),
    {
        (sat_add(x, self.x1), sat_add(y, self.y1))
    }

    /// A rectangle of the same size whose first corner is `(x, y)`.
    pub fn at_point(&self, x: i32, y: i32) -> (r: Rect)
        ensures
            r == self.spec_at_point(x, y),
            self.wf() ==> r.wf(),
    {
        Rect { x1: x, y1: y, x2: sat_add(x, self.width()), y2: sat_add(y, self.height()) }
    }

    /// A rectangle with the same first corner and the given size, unless a size is negative.
    pub fn with_size(&self, width: i32, height: i32) -> (r: Option<Rect>)
        ensures
            r.is_some() <==> (width >= 0 && height >= 0),
            r.is_some() ==> r.unwrap() == self.spec_with_size(width as int, height as int)
                && r.unwrap().wf(),
    {
        Rect::new_sized(self.x1, self.y1, width, height)
    }

    pub fn to_origin(&self) -> (r: Rect)
        ensures
            r == self.spec_at_point(0, 0),
            self.wf() ==> r.wf(),
    {
        self.at_point(0, 0)
    }
}

/// A union of two rectangles covers exactly the points between the outermost corners,
/// so it covers every point of either.
pub proof fn lemma_union_covers(a: Rect, b: Rect, x: int, y: int)
    requires
        a.spec_contains(x, y) || b.spec_contains(x, y),
    ensures
        a.spec_union(b).spec_contains(x, y),
{
}

/// An intersection covers exactly the points that both rectangles cover.
pub proof fn lemma_intersect_covers(a: Rect, b: Rect, x: int, y: int)
    ensures
        a.spec_intersect(b).spec_contains(x, y) <==> (a.spec_contains(x, y) && b.spec_contains(
            x,
            y,
        )),
{
}

/// A set of points given as a union of rectangles.
#[derive(Clone, Debug)]
pub struct Region {
    pub rects: Vec<Rect>,
}

impl Region {
    pub open spec fn spec_contains(self, x: int, y: int) -> bool {
        exists|i: int| 0 <= i < self.rects@.len() && (#[trigger] self.rects@[i]).spec_contains(x, y)
    }

    /// The region without points.
    pub fn empty() -> (r: Region)
        ensures
            r.rects@.len() == 0,
            forall|x: int, y: int| !r.spec_contains(x, y),
    {
        Region { rects: Vec::new() }
    }

    /// The region that covers exactly `rect`.
    pub fn new(rect: Rect) -> (r: Region)
        ensures
            r.rects@ == seq![rect],
            forall|x: int, y: int| r.spec_contains(x, y) == rect.spec_contains(x, y),
    {
        let mut rects: Vec<Rect> = Vec::new();
        rects.push(rect);
        let r = Region { rects };
        assert forall|x: int, y: int| r.spec_contains(x, y) == rect.spec_contains(x, y) by {
            if rect.spec_contains(x, y) {
                assert(r.rects@[0].spec_contains(x, y));
            }
        }
        r
    }

    /// The region that covers the points of all the given rectangles.
    pub fn from_rects(rects: Vec<Rect>) -> (r: Region)
        ensures
            r.rects == rects,
    {
        Region { rects }
    }

    pub fn contains(&self, x: i32, y: i32) -> (r: bool)
        ensures
            r == self.spec_contains(x as int, y as int),
    {
        let mut i: usize = 0;
        while i < self.rects.len()
            invariant
                0 <= i <= self.rects.len(),
                forall|j: int| 0 <= j < i ==> !(#[trigger] self.rects@[j]).spec_contains(x as int, y as int),
            decreases self.rects.len() - i,
        {
            if self.rects[i].contains(x, y) {
                return true;
            }
            i += 1;
        }
        false
    }

    /// The region that covers the points of either region.
    pub fn union(&self, other: &Region) -> (r: Region)
        ensures
            r.rects@ == self.rects@ + other.rects@,
            forall|x: int, y: int|
                r.spec_contains(x, y) == (self.spec_contains(x, y) || other.spec_contains(x, y)),
    {
        let mut rects: Vec<Rect> = Vec::new();
        let mut i: usize = 0;
        while i < self.rects.len()
            invariant
                0 <= i <= self.rects.len(),
                rects@ == self.rects@.subrange(0, i as int),
            decreases self.rects.len() - i,
        {
            rects.push(self.rects[i]);
            i += 1;
        }
        let mut k: usize = 0;
        while k < other.rects.len()
            invariant
                0 <= k <= other.rects.len(),
                rects@ == self.rects@ + other.rects@.subrange(0, k as int),
            decreases other.rects.len() - k,
        {
            rects.push(other.rects[k]);
            k += 1;
        }
        let r = Region { rects };
        assert(r.rects@ == self.rects@ + other.rects@);
        assert forall|x: int, y: int|
            r.spec_contains(x, y) == (self.spec_contains(x, y) || other.spec_contains(x, y)) by {
            let n = self.rects@.len() as int;
            if self.spec_contains(x, y) {
                let i = choose|i: int|
                    0 <= i < self.rects@.len() && (#[trigger] self.rects@[i]).spec_contains(x, y);
                assert(r.rects@[i].spec_contains(x, y));
            }
            if other.spec_contains(x, y) {
                let i = choose|i: int|
                    0 <= i < other.rects@.len() && (#[trigger] other.rects@[i]).spec_contains(x, y);
                assert(r.rects@[n + i].spec_contains(x, y));
            }
            if r.spec_contains(x, y) {
                let i = choose|i: int|
                    0 <= i < r.rects@.len() && (#[trigger] r.rects@[i]).spec_contains(x, y);
                if i < n {
                    assert(self.rects@[i].spec_contains(x, y));
                } else {
                    assert(other.rects@[i - n].spec_contains(x, y));
                }
            }
        }
        r
    }

    /// The smallest rectangle that covers every non-empty rectangle of the region,
    /// or the empty rectangle at the origin where there is none.
    pub fn extents(&self) -> (r: Rect)
        ensures
            r == bounding_box(self.rects@, self.rects@.len() as int),
    {
        let mut ext = Rect::new_empty(0, 0);
        let mut i: usize = 0;
        while i < self.rects.len()
            invariant
                0 <= i <= self.rects.len(),
                ext == bounding_box(self.rects@, i as int),
            decreases self.rects.len() - i,
        {
            let r = self.rects[i];
            if !r.is_empty() {
                ext = if ext.is_empty() { r } else { ext.union(r) };
            }
            i += 1;
        }
        ext
    }
}

/// The bounding box of the non-empty rectangles among the first `n` of `rects`.
pub open spec fn bounding_box(rects: Seq<Rect>, n: int) -> Rect
    decreases n,
{
    if n <= 0 || n > rects.len() {
        Rect::spec_empty(0, 0)
    } else {
        let prev = bounding_box(rects, n - 1);
        let r = rects[n - 1];
        if r.spec_is_empty() {
            prev
        } else if prev.spec_is_empty() {
            r
        } else {
            prev.spec_union(r)
        }
    }
}

/// The bounding box covers every point of the rectangles it was made from.
pub proof fn lemma_bounding_box_covers(rects: Seq<Rect>, n: int, i: int, x: int, y: int)
    requires
        0 <= i < n <= rects.len(),
        rects[i].spec_contains(x, y),
    ensures
        bounding_box(rects, n).spec_contains(x, y),
    decreases n,
{
    if i == n - 1 {
    } else {
        lemma_bounding_box_covers(rects, n - 1, i, x, y);
    }
}

} // verus!
