//! What the commit pipeline and the renderer agree on: how a buffer is
//! synchronised, which part of it is sampled, and who holds fences on it.

use vstd::prelude::*;
use crate::transform::Transform;

verus! {

/// A fence of the kernel, named by the handle under which its owner keeps it.
#[derive(Copy, Clone, Debug, PartialEq, Eq, Structural)]
pub struct SyncFile(pub u64);

/// A point on the timeline of a synchronisation object.
#[derive(Copy, Clone, Debug, PartialEq, Eq, Structural)]
pub struct SyncObjPoint {
    pub sync_obj: u64,
    pub point: u64,
}

/// What a reader of a buffer has to wait for before it samples.
#[derive(Copy, Clone, Debug, PartialEq, Eq, Structural)]
pub enum AcquireSync {
    Nothing,
    Implicit,
    SyncFile { sync_file: SyncFile },
    Unnecessary,
}

impl AcquireSync {
    pub open spec fn spec_from_sync_file(sync_file: Option<SyncFile>) -> AcquireSync {
        match sync_file {
            None => AcquireSync::Implicit,
            Some(sync_file) => AcquireSync::SyncFile { sync_file },
        }
    }

    /// Wait for the fence where there is one, else rely on implicit synchronisation.
    pub fn from_sync_file(sync_file: Option<SyncFile>) -> (r: AcquireSync)
        ensures
            r == AcquireSync::spec_from_sync_file(sync_file),
    {
        match sync_file {
            None => AcquireSync::Implicit,
            Some(sync_file) => AcquireSync::SyncFile { sync_file },
        }
    }
}

/// How the end of a read is made known to the writer of a buffer.
#[derive(Copy, Clone, Debug, PartialEq, Eq, Structural)]
pub enum ReleaseSync {
    Nothing,
    Implicit,
    Explicit,
}

/// One reader of a buffer; each reader holds at most one fence on it.
#[derive(Copy, Clone, Debug, PartialEq, Eq, Hash, Structural)]
pub struct BufferResvUser(pub u64);

/// Hands out the identities of readers, each one once.
#[derive(Debug)]
pub struct BufferResvUsers {
    pub next_id: u64,
}

impl BufferResvUsers {
    pub fn new() -> (r: BufferResvUsers)
        ensures
            r.next_id == 1,
    {
        BufferResvUsers { next_id: 1 }
    }

    /// A reader that was not handed out before, or nothing once the identities are used up.
    pub fn next(&mut self) -> (r: Option<BufferResvUser>)
        ensures
            old(self).next_id < u64::MAX ==> r == Some(BufferResvUser(old(self).next_id))
                && final(self).next_id == old(self).next_id + 1,
            old(self).next_id == u64::MAX ==> r.is_none() && *final(self) == *old(self),
    {
        if self.next_id == u64::MAX {
            None
        } else {
            let id: u64 = self.next_id;
            self.next_id = id + 1;
            Some(BufferResvUser(id))
        }
    }
}

/// Why a graphics context was lost.
#[derive(Copy, Clone, Debug, PartialEq, Eq, Structural)]
pub enum ResetStatus {
    Guilty,
    Innocent,
    Unknown,
    Other(u32),
}

/// A failure of the graphics backend, with the backend's own description.
#[derive(Clone, Debug)]
pub struct GfxError(pub String);

impl GfxError {
    pub fn message(&self) -> (r: &String)
        ensures
            *r == self.0,
    {
        &self.0
    }
}

/// A texture as far as the pipeline needs one: its size in pixels.
pub trait GfxTexture {
    fn size(&self) -> (i32, i32);
}

/// The size of a framebuffer as content sees it under `transform`.
pub fn logical_size(physical_size: (i32, i32), transform: Transform) -> (r: (i32, i32))
    ensures
        r == transform.spec_maybe_swap(physical_size),
{
    transform.maybe_swap(physical_size)
}

/// The part of a buffer that is sampled, as exact fractions of the buffer's size:
/// the corners are `x1 / width`, `y1 / height`, `x2 / width`, `y2 / height`.
/// A rectangle that covers the whole buffer has `x1 == y1 == 0`, `x2 == width`
/// and `y2 == height`.
#[derive(Copy, Clone, Debug, PartialEq, Eq, Structural)]
pub struct SampleRect {
    pub x1: i64,
    pub y1: i64,
    pub x2: i64,
    pub y2: i64,
    pub width: i64,
    pub height: i64,
    pub buffer_transform: Transform,
}

impl Default for SampleRect {
    fn default() -> (r: SampleRect)
        ensures
            r == SampleRect::spec_identity(),
    {
        SampleRect::identity()
    }
}

impl SampleRect {
    pub open spec fn spec_identity() -> SampleRect {
        SampleRect {
            x1: 0,
            y1: 0,
            x2: 1,
            y2: 1,
            width: 1,
            height: 1,
            buffer_transform: Transform::Normal,
        }
    }

    /// The whole buffer, with corners (0, 0) and (1, 1), under `transform`.
    pub open spec fn spec_covering(transform: Transform) -> SampleRect {
        SampleRect { buffer_transform: transform, ..SampleRect::spec_identity() }
    }

    pub open spec fn spec_is_covering(self) -> bool {
        self.x1 == 0 && self.y1 == 0 && self.x2 == self.width && self.y2 == self.height
    }

    /// No corner lies beyond the far edges of the buffer.
    pub open spec fn inside(self) -> bool {
        self.x1 <= self.width && self.x2 <= self.width && self.y1 <= self.height && self.y2
            <= self.height
    }

    pub fn identity() -> (r: SampleRect)
        ensures
            r == SampleRect::spec_identity(),
            r.spec_is_covering(),
    {
        SampleRect {
            x1: 0,
            y1: 0,
            x2: 1,
            y2: 1,
            width: 1,
            height: 1,
            buffer_transform: Transform::Normal,
        }
    }

    pub fn covering(transform: Transform) -> (r: SampleRect)
        ensures
            r == SampleRect::spec_covering(transform),
            r.spec_is_covering(),
    {
        SampleRect { x1: 0, y1: 0, x2: 1, y2: 1, width: 1, height: 1, buffer_transform: transform }
    }

    pub fn is_covering(&self) -> (r: bool)
        ensures
            r == self.spec_is_covering(),
    {
        self.x1 == 0 && self.y1 == 0 && self.x2 == self.width && self.y2 == self.height
    }
}

/// One of the four edges of a rectangle.
#[derive(Copy, Clone, Debug, PartialEq, Eq, Structural)]
pub enum Edge {
    X1,
    X2,
    Y1,
    Y2,
}

/// One coordinate of a corner: the value of an edge, as it is or negated.
#[derive(Copy, Clone, Debug, PartialEq, Eq, Structural)]
pub struct Coord {
    pub edge: Edge,
    pub negated: bool,
}

/// The two coordinates of a corner.
#[derive(Copy, Clone, Debug, PartialEq, Eq, Structural)]
pub struct Corner {
    pub first: Coord,
    pub second: Coord,
}

/// The four corners of a rectangle in the order in which they are drawn.
#[derive(Copy, Clone, Debug, PartialEq, Eq, Structural)]
pub struct Corners {
    pub top_right: Corner,
    pub top_left: Corner,
    pub bottom_right: Corner,
    pub bottom_left: Corner,
}

pub open spec fn plain(edge: Edge) -> Coord {
    Coord { edge, negated: false }
}

pub open spec fn minus(edge: Edge) -> Coord {
    Coord { edge, negated: true }
}

pub open spec fn corner(first: Coord, second: Coord) -> Corner {
    Corner { first, second }
}

pub open spec fn corners(a: Corner, b: Corner, c: Corner, d: Corner) -> Corners {
    Corners { top_right: a, top_left: b, bottom_right: c, bottom_left: d }
}

impl SampleRect {
    /// Which edges of the sampled part give the corners that go with the corners
    /// of the target, for each transform of the buffer.
    pub open spec fn spec_to_points(transform: Transform) -> Corners {
        let x1 = plain(Edge::X1);
        let x2 = plain(Edge::X2);
        let y1 = plain(Edge::Y1);
        let y2 = plain(Edge::Y2);
        match transform {
            Transform::Normal => corners(corner(x2, y1), corner(x1, y1), corner(x2, y2), corner(x1, y2)),
            Transform::Rotate90 => corners(
                corner(y1, x1),
                corner(y1, x2),
                corner(y2, x1),
                corner(y2, x2),
            ),
            Transform::Rotate180 => corners(
                corner(x1, y2),
                corner(x2, y2),
                corner(x1, y1),
                corner(x2, y1),
            ),
            Transform::Rotate270 => corners(
                corner(y2, x2),
                corner(y2, x1),
                corner(y1, x2),
                corner(y1, x1),
            ),
            Transform::Flip => corners(corner(x1, y1), corner(x2, y1), corner(x1, y2), corner(x2, y2)),
            Transform::FlipRotate90 => corners(
                corner(y1, x2),
                corner(y1, x1),
                corner(y2, x2),
                corner(y2, x1),
            ),
            Transform::FlipRotate180 => corners(
                corner(x2, y2),
                corner(x1, y2),
                corner(x2, y1),
                corner(x1, y1),
            ),
            Transform::FlipRotate270 => corners(
                corner(y2, x1),
                corner(y2, x2),
                corner(y1, x1),
                corner(y1, x2),
            ),
        }
    }

    pub fn to_points(&self) -> (r: Corners)
        ensures
            r == SampleRect::spec_to_points(self.buffer_transform),
    {
        let x1 = Coord { edge: Edge::X1, negated: false };
        let x2 = Coord { edge: Edge::X2, negated: false };
        let y1 = Coord { edge: Edge::Y1, negated: false };
        let y2 = Coord { edge: Edge::Y2, negated: false };
        match self.buffer_transform {
            Transform::Normal => make_corners((x2, y1), (x1, y1), (x2, y2), (x1, y2)),
            Transform::Rotate90 => make_corners((y1, x1), (y1, x2), (y2, x1), (y2, x2)),
            Transform::Rotate180 => make_corners((x1, y2), (x2, y2), (x1, y1), (x2, y1)),
            Transform::Rotate270 => make_corners((y2, x2), (y2, x1), (y1, x2), (y1, x1)),
            Transform::Flip => make_corners((x1, y1), (x2, y1), (x1, y2), (x2, y2)),
            Transform::FlipRotate90 => make_corners((y1, x2), (y1, x1), (y2, x2), (y2, x1)),
            Transform::FlipRotate180 => make_corners((x2, y2), (x1, y2), (x2, y1), (x1, y1)),
            Transform::FlipRotate270 => make_corners((y2, x1), (y2, x2), (y1, x1), (y1, x2)),
        }
    }
}

pub fn make_corners(a: (Coord, Coord), b: (Coord, Coord), c: (Coord, Coord), d: (Coord, Coord)) -> (r:
    Corners)
    ensures
        r == corners(corner(a.0, a.1), corner(b.0, b.1), corner(c.0, c.1), corner(d.0, d.1)),
{
    Corners {
        top_right: Corner { first: a.0, second: a.1 },
        top_left: Corner { first: b.0, second: b.1 },
        bottom_right: Corner { first: c.0, second: c.1 },
        bottom_left: Corner { first: d.0, second: d.1 },
    }
}

/// A rectangle of a framebuffer, whose corners are given in coordinates that run
/// from -1 to 1 on both axes.
pub struct FramebufferRect;

impl FramebufferRect {
    /// Which edges of the rectangle, as they are or negated, give the corners that
    /// are drawn, for each transform of the output.
    pub open spec fn spec_to_points(transform: Transform) -> Corners {
        let x1 = plain(Edge::X1);
        let x2 = plain(Edge::X2);
        let y1 = plain(Edge::Y1);
        let y2 = plain(Edge::Y2);
        let nx1 = minus(Edge::X1);
        let nx2 = minus(Edge::X2);
        let ny1 = minus(Edge::Y1);
        let ny2 = minus(Edge::Y2);
        match transform {
            Transform::Normal => corners(corner(x2, y1), corner(x1, y1), corner(x2, y2), corner(x1, y2)),
            Transform::Rotate90 => corners(
                corner(y1, nx2),
                corner(y1, nx1),
                corner(y2, nx2),
                corner(y2, nx1),
            ),
            Transform::Rotate180 => corners(
                corner(nx2, ny1),
                corner(nx1, ny1),
                corner(nx2, ny2),
                corner(nx1, ny2),
            ),
            Transform::Rotate270 => corners(
                corner(ny1, x2),
                corner(ny1, x1),
                corner(ny2, x2),
                corner(ny2, x1),
            ),
            Transform::Flip => corners(
                corner(nx2, y1),
                corner(nx1, y1),
                corner(nx2, y2),
                corner(nx1, y2),
            ),
            Transform::FlipRotate90 => corners(
                corner(y1, x2),
                corner(y1, x1),
                corner(y2, x2),
                corner(y2, x1),
            ),
            Transform::FlipRotate180 => corners(
                corner(x2, ny1),
                corner(x1, ny1),
                corner(x2, ny2),
                corner(x1, ny2),
            ),
            Transform::FlipRotate270 => corners(
                corner(ny1, nx2),
                corner(ny1, nx1),
                corner(ny2, nx2),
                corner(ny2, nx1),
            ),
        }
    }

    pub fn to_points(transform: Transform) -> (r: Corners)
        ensures
            r == FramebufferRect::spec_to_points(transform),
    {
        let x1 = Coord { edge: Edge::X1, negated: false };
        let x2 = Coord { edge: Edge::X2, negated: false };
        let y1 = Coord { edge: Edge::Y1, negated: false };
        let y2 = Coord { edge: Edge::Y2, negated: false };
        let nx1 = Coord { edge: Edge::X1, negated: true };
        let nx2 = Coord { edge: Edge::X2, negated: true };
        let ny1 = Coord { edge: Edge::Y1, negated: true };
        let ny2 = Coord { edge: Edge::Y2, negated: true };
        match transform {
            Transform::Normal => make_corners((x2, y1), (x1, y1), (x2, y2), (x1, y2)),
            Transform::Rotate90 => make_corners((y1, nx2), (y1, nx1), (y2, nx2), (y2, nx1)),
            Transform::Rotate180 => make_corners((nx2, ny1), (nx1, ny1), (nx2, ny2), (nx1, ny2)),
            Transform::Rotate270 => make_corners((ny1, x2), (ny1, x1), (ny2, x2), (ny2, x1)),
            Transform::Flip => make_corners((nx2, y1), (nx1, y1), (nx2, y2), (nx1, y2)),
            Transform::FlipRotate90 => make_corners((y1, x2), (y1, x1), (y2, x2), (y2, x1)),
            Transform::FlipRotate180 => make_corners((x2, ny1), (x1, ny1), (x2, ny2), (x1, ny2)),
            Transform::FlipRotate270 => make_corners((ny1, nx2), (ny1, nx1), (ny2, nx2), (ny2, nx1)),
        }
    }
}

} // verus!
