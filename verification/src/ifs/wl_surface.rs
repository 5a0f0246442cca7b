//! Surfaces: what a client has committed to one of them, and how a commit gets there.

pub mod accounting;
pub mod apply;
pub mod commit_timeline;
pub mod cursor;
pub mod outputs;
pub mod pending;
pub mod requests;
pub mod stacking;
pub mod tree;
pub mod wl_subsurface;
pub mod wp_linux_drm_syncobj_surface_v1;
pub mod wp_viewport;

use vstd::prelude::*;
use crate::client::{Event, LiveBuffers};
use crate::gfx_api::{AcquireSync, ReleaseSync, SampleRect, SyncFile, SyncObjPoint};
use crate::ifs::wl_buffer::WlBuffer;
use crate::ifs::wl_surface::pending::{ContentType, PendingState, SrcRect, wrapping_sum};
use crate::rect::{Rect, Region};
use crate::transform::Transform;
use crate::ifs::wl_surface::wl_subsurface::WlSubsurface;

verus! {

/// The codes of the protocol errors of a surface.
pub const INVALID_SCALE: u32 = 0;
pub const INVALID_TRANSFORM: u32 = 1;
pub const INVALID_SIZE: u32 = 2;

/// The first version of the surface protocol with the request `offset`.
pub const OFFSET_SINCE: u32 = 5;
pub const BUFFER_SCALE_SINCE: u32 = 6;
pub const TRANSFORM_SINCE: u32 = 6;

/// What a surface is used for. A surface starts without a role and keeps the first
/// one that it is given.
#[derive(Copy, Clone, Debug, PartialEq, Eq, Structural)]
pub enum SurfaceRole {
    Unassigned,
    Subsurface,
    XdgSurface,
    Cursor,
    DndIcon,
    ZwlrLayerSurface,
    XSurface,
    ExtSessionLockSurface,
}

impl SurfaceRole {
    pub open spec fn spec_name(self) -> Seq<char> {
        match self {
            SurfaceRole::Unassigned => "none"@,
            SurfaceRole::Subsurface => "subsurface"@,
            SurfaceRole::XdgSurface => "xdg_surface"@,
            SurfaceRole::Cursor => "cursor"@,
            SurfaceRole::DndIcon => "dnd_icon"@,
            SurfaceRole::ZwlrLayerSurface => "zwlr_layer_surface"@,
            SurfaceRole::XSurface => "xwayland surface"@,
            SurfaceRole::ExtSessionLockSurface => "ext_session_lock_surface"@,
        }
    }

    /// The name of the role as error messages give it.
    pub fn name(self) -> (r: &'static str)
        ensures
            r@ == self.spec_name(),
    {
        match self {
            SurfaceRole::Unassigned => "none",
            SurfaceRole::Subsurface => "subsurface",
            SurfaceRole::XdgSurface => "xdg_surface",
            SurfaceRole::Cursor => "cursor",
            SurfaceRole::DndIcon => "dnd_icon",
            SurfaceRole::ZwlrLayerSurface => "zwlr_layer_surface",
            SurfaceRole::XSurface => "xwayland surface",
            SurfaceRole::ExtSessionLockSurface => "ext_session_lock_surface",
        }
    }
}

/// Why a commit could not be queued.
#[derive(Copy, Clone, Debug, PartialEq, Eq, Structural)]
pub enum CommitTimelineError {
    /// The surface still waits for the fence of an earlier commit.
    CommitPending,
}

/// Why a request to a surface is refused. Each of them ends the connection of the
/// client that made the request.
#[derive(Copy, Clone, Debug, PartialEq, Eq, Structural)]
pub enum WlSurfaceError {
    ClientError(crate::client::ClientError),
    /// The surface has another role already.
    IncompatibleRole { id: u32, old: SurfaceRole, new: SurfaceRole },
    /// The surface cannot be destroyed before its role object.
    ReloObjectStillExists,
    /// The buffer scale is not positive.
    NonPositiveBufferScale,
    /// The number names no buffer transform.
    UnknownBufferTransform(i32),
    /// The source of the viewport has no whole size and no destination size is set.
    NonIntegerViewportSize,
    /// The source of the viewport is not contained in the attached buffer.
    ViewportOutsideBuffer,
    /// The attach request must not move the content in this version.
    OffsetInAttach,
    CommitTimelineError(CommitTimelineError),
    /// A buffer is attached under explicit synchronisation without both points.
    MissingSyncPoints,
    /// A point is set under explicit synchronisation without a buffer.
    UnexpectedSyncPoints,
}

/// A buffer while a surface shows it.
#[derive(Copy, Clone, Debug, PartialEq, Eq, Structural)]
pub struct SurfaceBuffer {
    pub buffer: WlBuffer,
    pub sync: AcquireSync,
    pub release_sync: ReleaseSync,
    /// The point to signal when the buffer is given back, under explicit
    /// synchronisation.
    pub release: Option<SyncObjPoint>,
}

/// A fence that a reader holds on the buffer that a surface shows.
#[derive(Copy, Clone, Debug, PartialEq, Eq, Structural)]
pub struct BufferFence {
    pub surface: usize,
    pub user: crate::gfx_api::BufferResvUser,
    pub sync_file: SyncFile,
}

/// The fences among the first `n` of `fences` that are held on the buffer of `surface`.
pub open spec fn fences_of(fences: Seq<BufferFence>, surface: usize, n: int) -> Seq<SyncFile>
    decreases n,
{
    if n <= 0 || n > fences.len() {
        seq![]
    } else if fences[n - 1].surface == surface {
        fences_of(fences, surface, n - 1).push(fences[n - 1].sync_file)
    } else {
        fences_of(fences, surface, n - 1)
    }
}

/// The fences among the first `n` of `fences` that are held on buffers of other surfaces.
pub open spec fn fences_without(fences: Seq<BufferFence>, surface: usize, n: int) -> Seq<
    BufferFence,
>
    decreases n,
{
    if n <= 0 || n > fences.len() {
        seq![]
    } else if fences[n - 1].surface == surface {
        fences_without(fences, surface, n - 1)
    } else {
        fences_without(fences, surface, n - 1).push(fences[n - 1])
    }
}

/// One import into the point for each fence, in order.
pub open spec fn import_into_point(point: SyncObjPoint, files: Seq<SyncFile>) -> Seq<Event> {
    Seq::new(files.len(), |i: int| Event::ImportIntoPoint { point, sync_file: files[i] })
}

/// One import into the buffer for each fence, in order.
pub open spec fn import_into_buffer(buffer: u32, files: Seq<SyncFile>) -> Seq<Event> {
    Seq::new(files.len(), |i: int| Event::ImportIntoBuffer { buffer, sync_file: files[i] })
}

impl SurfaceBuffer {
    /// What has to happen when a surface stops showing the buffer, given the fences
    /// that readers hold on it.
    ///
    /// Under explicit synchronisation the fences are imported into the release point,
    /// or the point is signalled where there is no fence; without a render context
    /// neither can be done. Otherwise the fences go into the implicit synchronisation
    /// of a buffer of the graphics device, and the client gets the plain notification
    /// unless it has destroyed the buffer.
    pub open spec fn release_events(
        self,
        files: Seq<SyncFile>,
        render_ctx: bool,
        live: LiveBuffers,
    ) -> Seq<Event> {
        match self.release {
            Some(point) => if !render_ctx {
                seq![Event::MissingRenderContext { point }]
            } else if files.len() > 0 {
                import_into_point(point, files).push(Event::ReleaseImported { point })
            } else {
                seq![Event::SignalPoint { point }]
            },
            None => (if self.buffer.dmabuf {
                import_into_buffer(self.buffer.id, files)
            } else {
                seq![]
            }) + (if live.spec_is_live(self.buffer.id) {
                seq![Event::SendRelease { buffer: self.buffer.id }]
            } else {
                seq![]
            }),
        }
    }

    /// Whether giving the buffer back reaches the client: under explicit
    /// synchronisation there is a render context, otherwise the client has not
    /// destroyed the buffer.
    pub open spec fn can_release(self, render_ctx: bool, live: LiveBuffers) -> bool {
        match self.release {
            Some(_) => render_ctx,
            None => live.spec_is_live(self.buffer.id),
        }
    }

    /// Appends what has to happen when the surface stops showing the buffer.
    pub fn release(
        &self,
        files: &Vec<SyncFile>,
        render_ctx: bool,
        live: &LiveBuffers,
        events: &mut Vec<Event>,
    )
        ensures
            final(events)@ == old(events)@ + self.release_events(files@, render_ctx, *live),
    {
        match self.release {
            Some(point) => {
                if !render_ctx {
                    events.push(Event::MissingRenderContext { point });
                } else if files.len() > 0 {
                    let mut i: usize = 0;
                    while i < files.len()
                        invariant
                            0 <= i <= files.len(),
                            events@ == old(events)@ + import_into_point(point, files@).subrange(
                                0,
                                i as int,
                            ),
                        decreases files.len() - i,
                    {
                        events.push(Event::ImportIntoPoint { point, sync_file: files[i] });
                        assert(import_into_point(point, files@).subrange(0, i as int + 1)
                            =~= import_into_point(point, files@).subrange(0, i as int).push(
                            Event::ImportIntoPoint { point, sync_file: files@[i as int] },
                        ));
                        i += 1;
                    }
                    assert(import_into_point(point, files@).subrange(0, i as int)
                        =~= import_into_point(point, files@));
                    events.push(Event::ReleaseImported { point });
                } else {
                    events.push(Event::SignalPoint { point });
                }
            },
            None => {
                if self.buffer.dmabuf {
                    let mut i: usize = 0;
                    while i < files.len()
                        invariant
                            0 <= i <= files.len(),
                            events@ == old(events)@ + import_into_buffer(
                                self.buffer.id,
                                files@,
                            ).subrange(0, i as int),
                        decreases files.len() - i,
                    {
                        events.push(
                            Event::ImportIntoBuffer { buffer: self.buffer.id, sync_file: files[i] },
                        );
                        assert(import_into_buffer(self.buffer.id, files@).subrange(0, i as int + 1)
                            =~= import_into_buffer(self.buffer.id, files@).subrange(
                            0,
                            i as int,
                        ).push(
                            Event::ImportIntoBuffer {
                                buffer: self.buffer.id,
                                sync_file: files@[i as int],
                            },
                        ));
                        i += 1;
                    }
                    assert(import_into_buffer(self.buffer.id, files@).subrange(0, i as int)
                        =~= import_into_buffer(self.buffer.id, files@));
                }
                if live.is_live(self.buffer.id) {
                    events.push(Event::SendRelease { buffer: self.buffer.id });
                }
            },
        }
        assert(events@ =~= old(events)@ + self.release_events(files@, render_ctx, *live));
    }

    /// What is owed after the import of fences into a release point: nothing where
    /// it went well, the plain signal of the point where it failed, so that the
    /// point never stays unsignalled.
    pub fn import_failed(point: SyncObjPoint, imported: bool) -> (r: Option<Event>)
        ensures
            imported ==> r.is_none(),
            !imported ==> r == Some(Event::SignalPoint { point }),
    {
        if imported {
            None
        } else {
            Some(Event::SignalPoint { point })
        }
    }
}

/// Giving a buffer back reaches the client exactly once where it can reach it at
/// all, and never more than once.
pub proof fn lemma_release_once(
    buffer: SurfaceBuffer,
    files: Seq<SyncFile>,
    render_ctx: bool,
    live: LiveBuffers,
)
    ensures
        crate::client::release_count(buffer.release_events(files, render_ctx, live)) == (
        if buffer.can_release(render_ctx, live) {
            1nat
        } else {
            0nat
        }),
{
    let ev = buffer.release_events(files, render_ctx, live);
    match buffer.release {
        Some(point) => {
            if !render_ctx {
                crate::client::lemma_release_count_push(seq![], ev[0]);
                assert(seq![].push(ev[0]) =~= ev);
            } else if files.len() > 0 {
                let imports = import_into_point(point, files);
                lemma_no_release_in_imports(point, files, files.len() as int);
                assert(imports.subrange(0, files.len() as int) =~= imports);
                crate::client::lemma_release_count_push(
                    imports,
                    Event::ReleaseImported { point },
                );
            } else {
                crate::client::lemma_release_count_push(seq![], ev[0]);
                assert(seq![].push(ev[0]) =~= ev);
            }
        },
        None => {
            let imports = if buffer.buffer.dmabuf {
                import_into_buffer(buffer.buffer.id, files)
            } else {
                seq![]
            };
            let tail = if live.spec_is_live(buffer.buffer.id) {
                seq![Event::SendRelease { buffer: buffer.buffer.id }]
            } else {
                seq![]
            };
            crate::client::lemma_release_count_add(imports, tail);
            if buffer.buffer.dmabuf {
                lemma_no_release_in_buffer_imports(buffer.buffer.id, files, files.len() as int);
                assert(imports.subrange(0, files.len() as int) =~= imports);
            }
            if live.spec_is_live(buffer.buffer.id) {
                crate::client::lemma_release_count_push(seq![], tail[0]);
                assert(seq![].push(tail[0]) =~= tail);
            }
        },
    }
}

proof fn lemma_no_release_in_imports(point: SyncObjPoint, files: Seq<SyncFile>, n: int)
    requires
        0 <= n <= files.len(),
    ensures
        crate::client::release_count(import_into_point(point, files).subrange(0, n)) == 0,
    decreases n,
{
    let all = import_into_point(point, files);
    if n > 0 {
        lemma_no_release_in_imports(point, files, n - 1);
        assert(all.subrange(0, n).drop_last() =~= all.subrange(0, n - 1));
    }
}

proof fn lemma_no_release_in_buffer_imports(buffer: u32, files: Seq<SyncFile>, n: int)
    requires
        0 <= n <= files.len(),
    ensures
        crate::client::release_count(import_into_buffer(buffer, files).subrange(0, n)) == 0,
    decreases n,
{
    let all = import_into_buffer(buffer, files);
    if n > 0 {
        lemma_no_release_in_buffer_imports(buffer, files, n - 1);
        assert(all.subrange(0, n).drop_last() =~= all.subrange(0, n - 1));
    }
}

/// A child in the stack of its parent. An element that was made by a request to
/// restack is pending, and out of sight, until the parent commits.
#[derive(Copy, Clone, Debug, PartialEq, Eq, Structural)]
pub struct StackElement {
    pub node_id: u64,
    pub parent: usize,
    pub sub_surface: usize,
    /// Whether the child is painted above its parent.
    pub above: bool,
    pub pending: bool,
}

/// The part of a buffer that a viewport selects, in 256ths of buffer pixels.
#[derive(Copy, Clone, Debug, PartialEq, Eq, Structural)]
pub struct BufferPoints {
    pub x1: i64,
    pub y1: i64,
    pub x2: i64,
    pub y2: i64,
}

/// What the role of a surface decides about a commit.
#[derive(Copy, Clone, Debug, PartialEq, Eq, Structural)]
pub enum CommitAction {
    ContinueCommit,
    AbortCommit,
}

/// Stands in for the role object of a surface that has none.
#[derive(Copy, Clone, Debug, PartialEq, Eq, Structural)]
pub struct NoneSurfaceExt;

impl NoneSurfaceExt {
    pub fn is_some(&self) -> (r: bool)
        ensures
            !r,
    {
        false
    }

    pub fn is_none(&self) -> (r: bool)
        ensures
            r,
    {
        !self.is_some()
    }

    pub fn commit_requested(&self) -> (r: CommitAction)
        ensures
            r == CommitAction::ContinueCommit,
    {
        CommitAction::ContinueCommit
    }

    pub fn on_surface_destroy(&self) -> (r: Result<(), WlSurfaceError>)
        ensures
            r.is_ok(),
    {
        Ok(())
    }
}

/// The role object of a surface.
#[derive(Copy, Clone, Debug)]
pub enum SurfaceExt {
    /// None was made yet, or it is gone.
    Absent(NoneSurfaceExt),
    /// The surface is a child of another surface.
    Subsurface(WlSubsurface),
    /// A role object that lives outside the commit pipeline; it is told what happens.
    Other,
}

impl SurfaceExt {
    pub open spec fn spec_is_some(self) -> bool {
        !(self is Absent)
    }

    pub fn is_some(&self) -> (r: bool)
        ensures
            r == self.spec_is_some(),
    {
        match self {
            SurfaceExt::Absent(e) => e.is_some(),
            _ => true,
        }
    }

    pub fn is_none(&self) -> (r: bool)
        ensures
            r == !self.spec_is_some(),
    {
        !self.is_some()
    }

    /// A surface cannot go while its role object is there.
    pub fn on_surface_destroy(&self) -> (r: Result<(), WlSurfaceError>)
        ensures
            r.is_ok() <==> !self.spec_is_some(),
            r.is_err() ==> r == Err::<(), WlSurfaceError>(WlSurfaceError::ReloObjectStillExists),
    {
        match self {
            SurfaceExt::Absent(e) => e.on_surface_destroy(),
            _ => Err(WlSurfaceError::ReloObjectStillExists),
        }
    }

    /// The surface above this one, where this one is a subsurface.
    pub open spec fn spec_subsurface_parent(self) -> Option<usize> {
        match self {
            SurfaceExt::Subsurface(sub) => Some(sub.parent),
            _ => None,
        }
    }

    pub fn subsurface_parent(&self) -> (r: Option<usize>)
        ensures
            r == self.spec_subsurface_parent(),
    {
        match self {
            SurfaceExt::Subsurface(sub) => Some(sub.parent),
            _ => None,
        }
    }
}

/// The committed state of a surface.
#[derive(Debug)]
pub struct WlSurface {
    pub id: u32,
    pub version: u32,
    pub visible: bool,
    pub role: SurfaceRole,
    pub input_region: Option<Region>,
    pub opaque_region: Option<Region>,
    pub buffer_points: BufferPoints,
    pub buffer_points_norm: SampleRect,
    pub buffer_transform: Transform,
    pub buffer_scale: i32,
    pub src_rect: Option<SrcRect>,
    pub dst_size: Option<(i32, i32)>,
    /// The smallest rectangle around the surface and its children, relative to the surface.
    pub extents: Rect,
    /// Where the buffer is shown, in absolute coordinates.
    pub buffer_abs_pos: Rect,
    pub need_extents_update: bool,
    pub buffer: Option<SurfaceBuffer>,
    pub buf_x: i32,
    pub buf_y: i32,
    pub ext: SurfaceExt,
    pub xwayland_serial: Option<u64>,
    pub tearing: bool,
    pub content_type: Option<ContentType>,
    /// Whether an object for explicit synchronisation is attached.
    pub sync_obj_surface: bool,
    pub destroyed: bool,
    /// The output that shows the surface.
    pub output: crate::ifs::wl_surface::outputs::OutputState,
}

/// `a / b` rounded up, for a dividend that is not negative and a positive divisor.
pub open spec fn ceil_div(a: int, b: int) -> int {
    (a + b - 1) / b
}

pub fn ceil_div_i32(a: i32, b: i32) -> (r: i32)
    requires
        a >= 0,
        b >= 1,
    ensures
        r == ceil_div(a as int, b as int),
        r >= 0,
{
    let q: i64 = (a as i64 + b as i64 - 1) / (b as i64);
    assert(0 <= q <= a) by (nonlinear_arith)
        requires
            q == (a + b - 1) / (b as int),
            a >= 0,
            b >= 1,
    ;
    q as i32
}

impl WlSurface {
    /// The committed values are ones that requests can have put there.
    pub open spec fn wf(self) -> bool {
        &&& self.buffer_scale >= 1
        &&& (self.dst_size matches Some(d) ==> d.0 > 0 && d.1 > 0)
        &&& (self.src_rect matches Some(r) ==> r.wf())
        &&& (self.buffer matches Some(b) ==> b.buffer.wf())
        &&& self.buffer_abs_pos.wf()
        &&& self.extents.wf()
    }

    pub open spec fn next_scale(self, p: PendingState) -> i32 {
        match p.scale {
            Some(s) => s,
            None => self.buffer_scale,
        }
    }

    pub open spec fn next_transform(self, p: PendingState) -> Transform {
        match p.transform {
            Some(t) => t,
            None => self.buffer_transform,
        }
    }

    pub open spec fn next_src_rect(self, p: PendingState) -> Option<SrcRect> {
        match p.src_rect {
            Some(r) => r,
            None => self.src_rect,
        }
    }

    pub open spec fn next_dst_size(self, p: PendingState) -> Option<(i32, i32)> {
        match p.dst_size {
            Some(d) => d,
            None => self.dst_size,
        }
    }

    pub open spec fn viewport_changed(p: PendingState) -> bool {
        p.dst_size is Some || p.src_rect is Some
    }

    /// Whether the commit changes how buffer pixels map to the surface.
    pub open spec fn geometry_changed(p: PendingState) -> bool {
        WlSurface::viewport_changed(p) || p.scale is Some || p.transform is Some
    }

    /// The commit leaves a source rectangle of fractional size without a destination
    /// size, so that the size of the surface would not be a whole number.
    pub open spec fn viewport_ambiguous(self, p: PendingState) -> bool {
        &&& WlSurface::viewport_changed(p)
        &&& self.next_dst_size(p) is None
        &&& self.next_src_rect(p) matches Some(r)
        &&& (!r.width.spec_is_integer() || !r.height.spec_is_integer())
    }

    /// The buffer that is shown after the commit.
    pub open spec fn next_buffer(self, p: PendingState) -> Option<SurfaceBuffer> {
        match p.buffer {
            None => self.buffer,
            Some(None) => None,
            Some(Some(buffer)) => Some(
                SurfaceBuffer {
                    buffer,
                    sync: if p.explicit_sync {
                        AcquireSync::Unnecessary
                    } else {
                        AcquireSync::Implicit
                    },
                    release_sync: if p.explicit_sync {
                        ReleaseSync::Explicit
                    } else {
                        ReleaseSync::Implicit
                    },
                    release: p.release_point,
                },
            ),
        }
    }

    /// The source rectangle in buffer pixels: the viewport's rectangle times the scale.
    pub open spec fn scaled_points(r: SrcRect, scale: i32) -> BufferPoints {
        BufferPoints {
            x1: (r.x.raw() * scale) as i64,
            y1: (r.y.raw() * scale) as i64,
            x2: ((r.x.raw() + r.width.raw()) * scale) as i64,
            y2: ((r.y.raw() + r.height.raw()) * scale) as i64,
        }
    }

    pub open spec fn next_buffer_points(self, p: PendingState) -> BufferPoints {
        match self.next_src_rect(p) {
            Some(r) => if WlSurface::geometry_changed(p) {
                WlSurface::scaled_points(r, self.next_scale(p))
            } else {
                self.buffer_points
            },
            None => self.buffer_points,
        }
    }

    /// The size of a buffer on the surface: turned as the transform says and divided
    /// by the scale, rounding up.
    pub open spec fn buffer_size(buffer: WlBuffer, transform: Transform, scale: i32) -> (i32, i32) {
        let size = transform.spec_maybe_swap(
            (buffer.rect.spec_width() as i32, buffer.rect.spec_height() as i32),
        );
        (ceil_div(size.0 as int, scale as int) as i32, ceil_div(size.1 as int, scale as int) as i32)
    }

    /// The size of the surface after the commit: the destination size where one is
    /// set, else the whole part of the source rectangle, else the size of the
    /// buffer, else nothing.
    pub open spec fn next_size(self, p: PendingState) -> (i32, i32) {
        match (self.next_dst_size(p), self.next_src_rect(p), self.next_buffer(p)) {
            (Some(d), _, _) => d,
            (None, Some(r), _) => (r.width.spec_to_int() as i32, r.height.spec_to_int() as i32),
            (None, None, Some(b)) => WlSurface::buffer_size(
                b.buffer,
                self.next_transform(p),
                self.next_scale(p),
            ),
            (None, None, None) => (0, 0),
        }
    }

    /// Whether the commit computes anew which part of the buffer is sampled.
    pub open spec fn sampling_updated(self, p: PendingState) -> bool {
        &&& p.buffer is Some || WlSurface::geometry_changed(p)
        &&& self.next_buffer(p) matches Some(b)
        &&& (WlSurface::geometry_changed(p) || !self.replaces_same_size(p, b.buffer.rect))
    }

    /// Whether the commit replaces a buffer by one with the given rectangle, which
    /// the old one had too.
    pub open spec fn replaces_same_size(self, p: PendingState, rect: Rect) -> bool {
        p.buffer is Some && (match self.buffer {
            Some(ob) => ob.buffer.rect == rect,
            None => false,
        })
    }

    /// The part of the buffer that is sampled, as fractions of the buffer's size
    /// after the transform.
    pub open spec fn sample_of(points: BufferPoints, buffer: WlBuffer, transform: Transform) -> SampleRect {
        let size = transform.spec_maybe_swap(
            (buffer.rect.spec_width() as i32, buffer.rect.spec_height() as i32),
        );
        SampleRect {
            x1: points.x1,
            y1: points.y1,
            x2: points.x2,
            y2: points.y2,
            width: (size.0 * 256) as i64,
            height: (size.1 * 256) as i64,
            buffer_transform: transform,
        }
    }

    pub open spec fn next_sample(self, p: PendingState) -> SampleRect {
        if self.sampling_updated(p) {
            if self.next_src_rect(p) is None {
                SampleRect::spec_covering(self.next_transform(p))
            } else {
                WlSurface::sample_of(
                    self.next_buffer_points(p),
                    self.next_buffer(p)->0.buffer,
                    self.next_transform(p),
                )
            }
        } else {
            self.buffer_points_norm
        }
    }

    /// The commit selects a part of the buffer that reaches beyond the buffer.
    pub open spec fn viewport_outside(self, p: PendingState) -> bool {
        &&& self.sampling_updated(p)
        &&& self.next_src_rect(p) is Some
        &&& !self.next_sample(p).inside()
    }

    /// Why the commit cannot be applied to the surface, if it cannot.
    pub open spec fn apply_error(self, p: PendingState) -> Option<WlSurfaceError> {
        if self.viewport_ambiguous(p) {
            Some(WlSurfaceError::NonIntegerViewportSize)
        } else if self.viewport_outside(p) {
            Some(WlSurfaceError::ViewportOutsideBuffer)
        } else {
            None
        }
    }

    /// Whether the commit brings a buffer together with a shift of the content.
    pub open spec fn shifted(p: PendingState) -> bool {
        p.buffer matches Some(Some(_)) && p.offset != (0i32, 0i32)
    }

    /// Whether the commit changes the size of the surface.
    pub open spec fn resized(self, p: PendingState) -> bool {
        let size = self.next_size(p);
        (p.buffer is Some || WlSurface::geometry_changed(p)) && (size.0
            != self.buffer_abs_pos.spec_width() || size.1 != self.buffer_abs_pos.spec_height())
    }

    /// Where the buffer is shown after the commit: at the same place, with the new size.
    pub open spec fn next_abs_pos(self, p: PendingState) -> Rect {
        let size = self.next_size(p);
        if p.buffer is Some || WlSurface::geometry_changed(p) {
            self.buffer_abs_pos.spec_with_size(size.0 as int, size.1 as int)
        } else {
            self.buffer_abs_pos
        }
    }

    /// How far the content has moved in all after the commit: a new buffer adds the
    /// offset of the commit, and the removal of the buffer starts again at nothing.
    pub open spec fn next_offset(self, p: PendingState) -> (i32, i32) {
        match p.buffer {
            None => (self.buf_x, self.buf_y),
            Some(None) => (0, 0),
            Some(Some(_)) => (
                wrapping_sum(self.buf_x, p.offset.0),
                wrapping_sum(self.buf_y, p.offset.1),
            ),
        }
    }

    /// The surface after the commit, as far as only the surface itself is concerned.
    pub open spec fn spec_applied_own(self, p: PendingState) -> WlSurface {
        WlSurface {
            buffer_scale: self.next_scale(p),
            buffer_transform: self.next_transform(p),
            dst_size: self.next_dst_size(p),
            src_rect: self.next_src_rect(p),
            buffer: self.next_buffer(p),
            buf_x: self.next_offset(p).0,
            buf_y: self.next_offset(p).1,
            buffer_points: self.next_buffer_points(p),
            buffer_points_norm: self.next_sample(p),
            buffer_abs_pos: self.next_abs_pos(p),
            need_extents_update: self.need_extents_update || WlSurface::shifted(p)
                || self.resized(p),
            input_region: match p.input_region {
                Some(r) => r,
                None => self.input_region,
            },
            opaque_region: match p.opaque_region {
                Some(r) => r,
                None => self.opaque_region,
            },
            tearing: match p.tearing {
                Some(t) => t,
                None => self.tearing,
            },
            content_type: match p.content_type {
                Some(c) => c,
                None => self.content_type,
            },
            xwayland_serial: match p.xwayland_serial {
                Some(s) => Some(s),
                None => self.xwayland_serial,
            },
            ..self
        }
    }
}

/// The source rectangle of a viewport in 256ths of buffer pixels.
pub fn scaled_points(r: SrcRect, scale: i32) -> (points: BufferPoints)
    requires
        r.wf(),
        scale >= 1,
    ensures
        points == WlSurface::scaled_points(r, scale),
        0 <= points.x1 <= points.x2,
        0 <= points.y1 <= points.y2,
{
    let x: i64 = r.x.0 as i64;
    let y: i64 = r.y.0 as i64;
    let w: i64 = r.width.0 as i64;
    let h: i64 = r.height.0 as i64;
    let k: i64 = scale as i64;
    assert(0 <= x * k <= (x + w) * k <= 0x7fff_ffff_ffff_ffff) by (nonlinear_arith)
        requires
            0 <= x <= 0x7fff_ffff,
            0 < w <= 0x7fff_ffff,
            1 <= k <= 0x7fff_ffff,
    ;
    assert(0 <= y * k <= (y + h) * k <= 0x7fff_ffff_ffff_ffff) by (nonlinear_arith)
        requires
            0 <= y <= 0x7fff_ffff,
            0 < h <= 0x7fff_ffff,
            1 <= k <= 0x7fff_ffff,
    ;
    BufferPoints { x1: x * k, y1: y * k, x2: (x + w) * k, y2: (y + h) * k }
}

/// The size of a buffer on a surface with the given transform and scale.
pub fn buffer_size(buffer: WlBuffer, transform: Transform, scale: i32) -> (size: (i32, i32))
    requires
        buffer.wf(),
        scale >= 1,
    ensures
        size == WlSurface::buffer_size(buffer, transform, scale),
        size.0 >= 0,
        size.1 >= 0,
{
    let (w, h) = transform.maybe_swap(buffer.rect.size());
    (ceil_div_i32(w, scale), ceil_div_i32(h, scale))
}

/// The part of a buffer that is sampled, as fractions of the buffer's size.
pub fn sample_of(points: BufferPoints, buffer: WlBuffer, transform: Transform) -> (r: SampleRect)
    ensures
        r == WlSurface::sample_of(points, buffer, transform),
{
    let (w, h) = transform.maybe_swap(buffer.rect.size());
    SampleRect {
        x1: points.x1,
        y1: points.y1,
        x2: points.x2,
        y2: points.y2,
        width: w as i64 * 256,
        height: h as i64 * 256,
        buffer_transform: transform,
    }
}

impl WlSurface {
    /// A surface as the client makes it: no role, no buffer, scale 1, nothing set.
    pub open spec fn spec_new(id: u32, version: u32) -> WlSurface {
        WlSurface {
            id,
            version,
            visible: false,
            role: SurfaceRole::Unassigned,
            input_region: None,
            opaque_region: None,
            buffer_points: BufferPoints { x1: 0, y1: 0, x2: 0, y2: 0 },
            buffer_points_norm: SampleRect::spec_identity(),
            buffer_transform: Transform::Normal,
            buffer_scale: 1,
            src_rect: None,
            dst_size: None,
            extents: Rect::spec_empty(0, 0),
            buffer_abs_pos: Rect::spec_empty(0, 0),
            need_extents_update: false,
            buffer: None,
            buf_x: 0,
            buf_y: 0,
            ext: SurfaceExt::Absent(NoneSurfaceExt),
            xwayland_serial: None,
            tearing: false,
            content_type: None,
            sync_obj_surface: false,
            destroyed: false,
            output: crate::ifs::wl_surface::outputs::OutputState::spec_dummy(),
        }
    }

    /// A surface as the client makes it.
    pub fn new(id: u32, version: u32) -> (r: WlSurface)
        ensures
            r == WlSurface::spec_new(id, version),
            r.wf(),
    {
        WlSurface {
            id,
            version,
            visible: false,
            role: SurfaceRole::Unassigned,
            input_region: None,
            opaque_region: None,
            buffer_points: BufferPoints { x1: 0, y1: 0, x2: 0, y2: 0 },
            buffer_points_norm: SampleRect::identity(),
            buffer_transform: Transform::Normal,
            buffer_scale: 1,
            src_rect: None,
            dst_size: None,
            extents: Rect::new_empty(0, 0),
            buffer_abs_pos: Rect::new_empty(0, 0),
            need_extents_update: false,
            buffer: None,
            buf_x: 0,
            buf_y: 0,
            ext: SurfaceExt::Absent(NoneSurfaceExt),
            xwayland_serial: None,
            tearing: false,
            content_type: None,
            sync_obj_surface: false,
            destroyed: false,
            output: crate::ifs::wl_surface::outputs::OutputState::dummy(),
        }
    }

    /// Gives the surface a role. A surface without a role takes any; a surface
    /// takes the role that it has once more; everything else is refused.
    pub fn set_role(&mut self, role: SurfaceRole) -> (r: Result<(), WlSurfaceError>)
        ensures
            r.is_ok() <==> (old(self).role == SurfaceRole::Unassigned || old(self).role == role),
            r.is_ok() ==> *final(self) == (WlSurface { role, ..*old(self) }),
            r.is_err() ==> *final(self) == *old(self) && r == Err::<(), WlSurfaceError>(
                WlSurfaceError::IncompatibleRole { id: old(self).id, old: old(self).role, new: role },
            ),
    {
        if self.role == SurfaceRole::Unassigned || self.role == role {
            self.role = role;
            Ok(())
        } else {
            Err(WlSurfaceError::IncompatibleRole { id: self.id, old: self.role, new: role })
        }
    }

    pub fn is_cursor(&self) -> (r: bool)
        ensures
            r == (self.role == SurfaceRole::Cursor),
    {
        self.role == SurfaceRole::Cursor
    }

    pub fn xwayland_serial(&self) -> (r: Option<u64>)
        ensures
            r == self.xwayland_serial,
    {
        self.xwayland_serial
    }

    /// Checks a commit against the rules of explicit synchronisation, and notes in
    /// the delta whether they are in force. Where an object for explicit
    /// synchronisation is attached, a commit that brings a buffer brings both
    /// points, and a commit without a buffer brings neither.
    pub fn verify_explicit_sync(&self, pending: &mut PendingState) -> (r: Result<(), WlSurfaceError>)
        ensures
            *final(pending) == (PendingState {
                explicit_sync: self.sync_obj_surface,
                ..*old(pending)
            }),
            r == WlSurface::explicit_sync_verdict(self.sync_obj_surface, *old(pending)),
    {
        WlSurface::check_explicit_sync(self.sync_obj_surface, pending)
    }

    /// Checks a commit against the rules of explicit synchronisation, which are in
    /// force or not as `explicit_sync` says, and notes that in the delta.
    pub fn check_explicit_sync(explicit_sync: bool, pending: &mut PendingState) -> (r: Result<
        (),
        WlSurfaceError,
    >)
        ensures
            *final(pending) == (PendingState { explicit_sync, ..*old(pending) }),
            r == WlSurface::explicit_sync_verdict(explicit_sync, *old(pending)),
    {
        pending.explicit_sync = explicit_sync;
        if !pending.explicit_sync {
            return Ok(());
        }
        let have_new_buffer = match &pending.buffer {
            None => false,
            Some(b) => b.is_some(),
        };
        let release = pending.release_point.is_some();
        let acquire = pending.acquire_point.is_some();
        if release && acquire && have_new_buffer {
            Ok(())
        } else if !release && !acquire && !have_new_buffer {
            Ok(())
        } else if have_new_buffer {
            Err(WlSurfaceError::MissingSyncPoints)
        } else {
            Err(WlSurfaceError::UnexpectedSyncPoints)
        }
    }

    /// What the rules of explicit synchronisation say of a commit.
    pub open spec fn explicit_sync_verdict(explicit_sync: bool, p: PendingState) -> Result<
        (),
        WlSurfaceError,
    > {
        let have_new_buffer = p.buffer matches Some(Some(_));
        let points = (if p.release_point is Some {
            1int
        } else {
            0int
        }) + (if p.acquire_point is Some {
            1int
        } else {
            0int
        });
        if !explicit_sync {
            Ok(())
        } else if have_new_buffer {
            if points == 2 {
                Ok(())
            } else {
                Err(WlSurfaceError::MissingSyncPoints)
            }
        } else {
            if points == 0 {
                Ok(())
            } else {
                Err(WlSurfaceError::UnexpectedSyncPoints)
            }
        }
    }

    /// The scale, transform and viewport after the commit.
    pub fn planned_geometry(&self, p: &PendingState) -> (r: (
        i32,
        Transform,
        Option<SrcRect>,
        Option<(i32, i32)>,
    ))
        ensures
            r.0 == self.next_scale(*p),
            r.1 == self.next_transform(*p),
            r.2 == self.next_src_rect(*p),
            r.3 == self.next_dst_size(*p),
    {
        let scale: i32 = match p.scale {
            Some(s) => s,
            None => self.buffer_scale,
        };
        let transform = match p.transform {
            Some(t) => t,
            None => self.buffer_transform,
        };
        let src_rect = match p.src_rect {
            Some(r) => r,
            None => self.src_rect,
        };
        let dst_size = match p.dst_size {
            Some(d) => d,
            None => self.dst_size,
        };
        (scale, transform, src_rect, dst_size)
    }

    pub fn commit_changes_geometry(p: &PendingState) -> (r: bool)
        ensures
            r == WlSurface::geometry_changed(*p),
    {
        p.dst_size.is_some() || p.src_rect.is_some() || p.scale.is_some() || p.transform.is_some()
    }

    pub fn is_viewport_ambiguous(&self, p: &PendingState) -> (r: bool)
        ensures
            r == self.viewport_ambiguous(*p),
    {
        let (_, _, src_rect, dst_size) = self.planned_geometry(p);
        if (p.dst_size.is_some() || p.src_rect.is_some()) && dst_size.is_none() {
            match src_rect {
                Some(r) => !r.width.is_integer() || !r.height.is_integer(),
                None => false,
            }
        } else {
            false
        }
    }

    pub fn planned_buffer(&self, p: &PendingState) -> (r: Option<SurfaceBuffer>)
        ensures
            r == self.next_buffer(*p),
    {
        let explicit_sync = p.explicit_sync;
        match p.buffer {
            None => self.buffer,
            Some(None) => None,
            Some(Some(buffer)) => Some(
                SurfaceBuffer {
                    buffer,
                    sync: if explicit_sync {
                        AcquireSync::Unnecessary
                    } else {
                        AcquireSync::Implicit
                    },
                    release_sync: if explicit_sync {
                        ReleaseSync::Explicit
                    } else {
                        ReleaseSync::Implicit
                    },
                    release: p.release_point,
                },
            ),
        }
    }

    pub fn planned_points(&self, p: &PendingState) -> (r: BufferPoints)
        requires
            self.wf(),
            p.wf(),
        ensures
            r == self.next_buffer_points(*p),
    {
        let (scale, _, src_rect, _) = self.planned_geometry(p);
        match src_rect {
            Some(r) => {
                if WlSurface::commit_changes_geometry(p) {
                    scaled_points(r, scale)
                } else {
                    self.buffer_points
                }
            },
            None => self.buffer_points,
        }
    }

    pub fn planned_size(&self, p: &PendingState) -> (r: (i32, i32))
        requires
            self.wf(),
            p.wf(),
        ensures
            r == self.next_size(*p),
            r.0 >= 0,
            r.1 >= 0,
    {
        let (scale, transform, src_rect, dst_size) = self.planned_geometry(p);
        match dst_size {
            Some(d) => d,
            None => match src_rect {
                Some(r) => (r.width.to_int(), r.height.to_int()),
                None => match self.planned_buffer(p) {
                    Some(b) => buffer_size(b.buffer, transform, scale),
                    None => (0, 0),
                },
            },
        }
    }

    pub fn is_sampling_updated(&self, p: &PendingState) -> (r: bool)
        ensures
            r == self.sampling_updated(*p),
    {
        let geometry_changed = WlSurface::commit_changes_geometry(p);
        if p.buffer.is_some() || geometry_changed {
            match self.planned_buffer(p) {
                Some(b) => {
                    let same = p.buffer.is_some() && match self.buffer {
                        Some(ob) => ob.buffer.rect == b.buffer.rect,
                        None => false,
                    };
                    geometry_changed || !same
                },
                None => false,
            }
        } else {
            false
        }
    }

    /// The part of the buffer that is sampled after the commit, unless the commit
    /// selects a part that reaches beyond the buffer.
    pub fn planned_sample(&self, p: &PendingState) -> (r: Option<SampleRect>)
        requires
            self.wf(),
            p.wf(),
        ensures
            r.is_none() <==> self.viewport_outside(*p),
            r.is_some() ==> r.unwrap() == self.next_sample(*p),
    {
        if self.is_sampling_updated(p) {
            let (_, transform, src_rect, _) = self.planned_geometry(p);
            if src_rect.is_none() {
                Some(SampleRect::covering(transform))
            } else {
                let points = self.planned_points(p);
                match self.planned_buffer(p) {
                    Some(b) => {
                        let sample = sample_of(points, b.buffer, transform);
                        if sample.x1 > sample.width || sample.x2 > sample.width || sample.y1
                            > sample.height || sample.y2 > sample.height {
                            None
                        } else {
                            Some(sample)
                        }
                    },
                    None => Some(self.buffer_points_norm),
                }
            }
        } else {
            Some(self.buffer_points_norm)
        }
    }

    /// Where the buffer is shown after the commit, and whether the commit changes
    /// the size of the surface.
    pub fn planned_position(&self, p: &PendingState) -> (r: (Rect, bool))
        requires
            self.wf(),
            p.wf(),
        ensures
            r.0 == self.next_abs_pos(*p),
            r.1 == self.resized(*p),
            r.0.wf(),
    {
        if p.buffer.is_some() || WlSurface::commit_changes_geometry(p) {
            let size = self.planned_size(p);
            let old_size = self.buffer_abs_pos.size();
            let resized = size.0 != old_size.0 || size.1 != old_size.1;
            match self.buffer_abs_pos.with_size(size.0, size.1) {
                Some(r) => (r, resized),
                None => (self.buffer_abs_pos, resized),
            }
        } else {
            (self.buffer_abs_pos, false)
        }
    }

    /// How far the content has moved in all after the commit.
    pub fn planned_offset(&self, p: &PendingState) -> (r: (i32, i32))
        ensures
            r == self.next_offset(*p),
    {
        match p.buffer {
            None => (self.buf_x, self.buf_y),
            Some(None) => (0, 0),
            Some(Some(_)) => (
                self.buf_x.wrapping_add(p.offset.0),
                self.buf_y.wrapping_add(p.offset.1),
            ),
        }
    }

    pub fn commit_shifts(p: &PendingState) -> (r: bool)
        ensures
            r == WlSurface::shifted(*p),
    {
        match p.buffer {
            Some(Some(_)) => p.offset.0 != 0 || p.offset.1 != 0,
            _ => false,
        }
    }

    /// Why the commit cannot be applied to the surface, if it cannot.
    pub fn check_apply(&self, p: &PendingState) -> (r: Option<WlSurfaceError>)
        requires
            self.wf(),
            p.wf(),
        ensures
            r == self.apply_error(*p),
    {
        if self.is_viewport_ambiguous(p) {
            Some(WlSurfaceError::NonIntegerViewportSize)
        } else if self.planned_sample(p).is_none() {
            Some(WlSurfaceError::ViewportOutsideBuffer)
        } else {
            None
        }
    }

    /// Applies a commit to the surface itself, or refuses it and leaves the
    /// surface as it is.
    pub fn apply_own(&mut self, p: &mut PendingState) -> (r: Result<(), WlSurfaceError>)
        requires
            old(self).wf(),
            old(p).wf(),
        ensures
            match old(self).apply_error(*old(p)) {
                Some(e) => r == Err::<(), WlSurfaceError>(e) && *final(self) == *old(self)
                    && *final(p) == *old(p),
                None => r.is_ok() && *final(self) == old(self).spec_applied_own(*old(p))
                    && final(self).wf() && *final(p) == (PendingState {
                    input_region: None,
                    opaque_region: None,
                    ..*old(p)
                }),
            },
    {
        if self.is_viewport_ambiguous(p) {
            return Err(WlSurfaceError::NonIntegerViewportSize);
        }
        let norm = match self.planned_sample(p) {
            Some(n) => n,
            None => {
                return Err(WlSurfaceError::ViewportOutsideBuffer);
            },
        };
        let (scale, transform, src_rect, dst_size) = self.planned_geometry(p);
        let buffer = self.planned_buffer(p);
        let points = self.planned_points(p);
        let (abs_pos, resized) = self.planned_position(p);
        let offset = self.planned_offset(p);
        let need = self.need_extents_update || WlSurface::commit_shifts(p) || resized;
        self.buffer_scale = scale;
        self.buffer_transform = transform;
        self.src_rect = src_rect;
        self.dst_size = dst_size;
        self.buffer = buffer;
        self.buf_x = offset.0;
        self.buf_y = offset.1;
        self.buffer_points = points;
        self.buffer_points_norm = norm;
        self.buffer_abs_pos = abs_pos;
        self.need_extents_update = need;
        self.apply_attributes(p);
        Ok(())
    }

    /// Takes over the regions, the tearing flag, the content type and the serial
    /// that the commit sets.
    pub fn apply_attributes(&mut self, p: &mut PendingState)
        ensures
            *final(self) == (WlSurface {
                input_region: match old(p).input_region {
                    Some(r) => r,
                    None => old(self).input_region,
                },
                opaque_region: match old(p).opaque_region {
                    Some(r) => r,
                    None => old(self).opaque_region,
                },
                tearing: match old(p).tearing {
                    Some(t) => t,
                    None => old(self).tearing,
                },
                content_type: match old(p).content_type {
                    Some(c) => c,
                    None => old(self).content_type,
                },
                xwayland_serial: match old(p).xwayland_serial {
                    Some(s) => Some(s),
                    None => old(self).xwayland_serial,
                },
                ..*old(self)
            }),
            *final(p) == (PendingState { input_region: None, opaque_region: None, ..*old(p) }),
    {
        match p.input_region.take() {
            Some(r) => {
                self.input_region = r;
            },
            None => {},
        }
        match p.opaque_region.take() {
            Some(r) => {
                self.opaque_region = r;
            },
            None => {},
        }
        match p.tearing {
            Some(t) => {
                self.tearing = t;
            },
            None => {},
        }
        match p.content_type {
            Some(c) => {
                self.content_type = c;
            },
            None => {},
        }
        match p.xwayland_serial {
            Some(s) => {
                self.xwayland_serial = Some(s);
            },
            None => {},
        }
    }
}

} // verus!
