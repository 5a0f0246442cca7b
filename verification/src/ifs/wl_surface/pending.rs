//! What a surface has been asked to change since its last commit.
//!
//! Every request between two commits lands in a `PendingState`. A field that is
//! unset was not touched in this cycle. Where a commit cannot be applied at once,
//! the next one is folded into it by `PendingState::merge`.

use vstd::prelude::*;
use crate::client::{Event, LiveBuffers};
use crate::fixed::Fixed;
use crate::gfx_api::SyncObjPoint;
use crate::ifs::wl_buffer::WlBuffer;
use crate::rect::{Rect, Region};
use crate::transform::Transform;

verus! {

#[derive(Copy, Clone, Debug, PartialEq, Eq, Structural)]
pub enum ContentType {
    Photo,
    Video,
    Game,
}

/// The part of a buffer that a viewport shows, in buffer coordinates.
#[derive(Copy, Clone, Debug, PartialEq, Eq, Structural)]
pub struct SrcRect {
    pub x: Fixed,
    pub y: Fixed,
    pub width: Fixed,
    pub height: Fixed,
}

impl SrcRect {
    /// The corner is not negative and the size is positive.
    pub open spec fn wf(self) -> bool {
        self.x.raw() >= 0 && self.y.raw() >= 0 && self.width.raw() > 0 && self.height.raw() > 0
    }
}

/// Which of the two regions of a surface a request sets.
#[derive(Copy, Clone, Debug, PartialEq, Eq, Structural)]
pub enum RegionKind {
    Opaque,
    Input,
}

/// What a subsurface has been asked to change: a new place in the stack of its
/// parent, named by the stack element that was made for it, and a new position.
#[derive(Copy, Clone, Debug)]
pub struct PendingSubsurfaceData {
    pub node: Option<u64>,
    pub position: Option<(i32, i32)>,
}

/// What a shell surface has been asked to change.
#[derive(Copy, Clone, Debug, PartialEq, Eq, Structural)]
pub struct PendingXdgSurfaceData {
    pub geometry: Option<Rect>,
}

/// What a layer surface has been asked to change.
#[derive(Copy, Clone, Debug)]
pub struct PendingLayerSurfaceData {
    pub size: Option<(i32, i32)>,
}

/// The later of two writes to a field: the second where it was made, else the first.
pub open spec fn later<T>(first: Option<T>, second: Option<T>) -> Option<T> {
    if second is Some {
        second
    } else {
        first
    }
}

impl PendingSubsurfaceData {
    pub open spec fn spec_merge(self, next: PendingSubsurfaceData) -> PendingSubsurfaceData {
        PendingSubsurfaceData {
            node: later(self.node, next.node),
            position: later(self.position, next.position),
        }
    }

    pub fn merge(&mut self, next: &PendingSubsurfaceData)
        ensures
            *final(self) == old(self).spec_merge(*next),
    {
        if next.node.is_some() {
            self.node = next.node;
        }
        if next.position.is_some() {
            self.position = next.position;
        }
    }
}

impl PendingXdgSurfaceData {
    pub open spec fn spec_merge(self, next: PendingXdgSurfaceData) -> PendingXdgSurfaceData {
        PendingXdgSurfaceData { geometry: later(self.geometry, next.geometry) }
    }

    pub fn merge(&mut self, next: &PendingXdgSurfaceData)
        ensures
            *final(self) == old(self).spec_merge(*next),
    {
        if next.geometry.is_some() {
            self.geometry = next.geometry;
        }
    }
}

impl PendingLayerSurfaceData {
    pub open spec fn spec_merge(self, next: PendingLayerSurfaceData) -> PendingLayerSurfaceData {
        PendingLayerSurfaceData { size: later(self.size, next.size) }
    }

    pub fn merge(&mut self, next: &PendingLayerSurfaceData)
        ensures
            *final(self) == old(self).spec_merge(*next),
    {
        if next.size.is_some() {
            self.size = next.size;
        }
    }
}

/// The sum of two offsets as the accumulator keeps it: in 32 bits, wrapping around.
pub open spec fn wrapping_sum(a: i32, b: i32) -> i32 {
    vstd::wrapping::i32_specs::wrapping_add(a, b)
}

/// Where the exact sum fits, the accumulated offset is the exact sum.
pub proof fn lemma_wrapping_sum_exact(a: i32, b: i32)
    requires
        i32::MIN <= a + b <= i32::MAX,
    ensures
        wrapping_sum(a, b) == a + b,
{
}

/// What a surface has been asked to change since its last commit, and what its
/// synchronized children have committed since.
pub struct PendingState {
    pub buffer: Option<Option<WlBuffer>>,
    pub offset: (i32, i32),
    pub opaque_region: Option<Option<Region>>,
    pub input_region: Option<Option<Region>>,
    pub frame_request: Vec<u32>,
    pub damage: bool,
    pub presentation_feedback: Vec<u32>,
    pub src_rect: Option<Option<SrcRect>>,
    pub dst_size: Option<Option<(i32, i32)>>,
    pub scale: Option<i32>,
    pub transform: Option<Transform>,
    pub xwayland_serial: Option<u64>,
    pub tearing: Option<bool>,
    pub content_type: Option<Option<ContentType>>,
    pub subsurface: Option<PendingSubsurfaceData>,
    pub xdg_surface: Option<PendingXdgSurfaceData>,
    pub layer_surface: Option<PendingLayerSurfaceData>,
    /// What the synchronized children have committed since, each child once.
    pub subsurfaces: Vec<CommittedSubsurface>,
    pub acquire_point: Option<SyncObjPoint>,
    pub release_point: Option<SyncObjPoint>,
    pub explicit_sync: bool,
}

/// The committed state of a synchronized child that waits for its parent.
pub struct CommittedSubsurface {
    /// The identity of the subsurface object.
    pub id: u64,
    /// The surface of the child.
    pub surface: usize,
    pub state: PendingState,
}

/// Whether one of the children has the identity.
pub open spec fn has_child(children: Seq<CommittedSubsurface>, id: u64) -> bool {
    exists|j: int| 0 <= j < children.len() && (#[trigger] children[j]).id == id
}

/// No two children share an identity.
pub open spec fn distinct_children(children: Seq<CommittedSubsurface>) -> bool {
    forall|i: int, j: int|
        0 <= i < j < children.len() ==> (#[trigger] children[i]).id != (#[trigger] children[j]).id
}

/// What is owed to the client when the buffer that `state` holds is given up before
/// it was ever applied: the signal of its release point, or else the plain
/// notification if the client has not destroyed the buffer.
pub open spec fn discard_buffer_events(state: PendingState, live: LiveBuffers) -> Seq<Event> {
    match (state.release_point, state.buffer) {
        (Some(point), _) => seq![Event::SignalPoint { point }],
        (None, Some(Some(prev))) => if live.spec_is_live(prev.id) {
            seq![Event::SendRelease { buffer: prev.id }]
        } else {
            seq![]
        },
        _ => seq![],
    }
}

/// The events of merging `b` into `a`: first what is owed for a buffer of `a` that
/// `b` supersedes, then the events of the children of `b` that `a` holds too, in the
/// order of `b`.
pub open spec fn merge_events(a: PendingState, b: PendingState, live: LiveBuffers) -> Seq<Event>
    decreases b,
{
    (if b.buffer is Some {
        discard_buffer_events(a, live)
    } else {
        seq![]
    }) + children_merge_events(a.subsurfaces@, b.subsurfaces@, b.subsurfaces@.len() as int, live)
}

/// The events of merging the first `n` children of `b` into the children `a`.
pub open spec fn children_merge_events(
    a: Seq<CommittedSubsurface>,
    b: Seq<CommittedSubsurface>,
    n: int,
    live: LiveBuffers,
) -> Seq<Event>
    decreases b, n,
{
    if n <= 0 || n > b.len() {
        seq![]
    } else {
        let rest = children_merge_events(a, b, n - 1, live);
        let c = b[n - 1];
        if has_child(a, c.id) {
            let j = choose|j: int| 0 <= j < a.len() && (#[trigger] a[j]).id == c.id;
            rest + merge_events(a[j].state, c.state, live)
        } else {
            rest
        }
    }
}

impl PendingState {
    /// Nothing is set and nothing is queued.
    pub open spec fn is_empty_state(self) -> bool {
        &&& self.buffer is None
        &&& self.offset == (0i32, 0i32)
        &&& self.opaque_region is None
        &&& self.input_region is None
        &&& self.frame_request@.len() == 0
        &&& !self.damage
        &&& self.presentation_feedback@.len() == 0
        &&& self.src_rect is None
        &&& self.dst_size is None
        &&& self.scale is None
        &&& self.transform is None
        &&& self.xwayland_serial is None
        &&& self.tearing is None
        &&& self.content_type is None
        &&& self.subsurface is None
        &&& self.xdg_surface is None
        &&& self.layer_surface is None
        &&& self.subsurfaces@.len() == 0
        &&& self.acquire_point is None
        &&& self.release_point is None
    }

    /// The values are ones that a surface can take on, here and in every child:
    /// a positive scale, a positive destination size, a source rectangle with a
    /// positive size in the first quadrant, a buffer with an ordered rectangle,
    /// and no child twice.
    pub open spec fn wf(self) -> bool
        decreases self,
    {
        &&& (self.scale matches Some(s) ==> s >= 1)
        &&& (self.dst_size matches Some(Some(d)) ==> d.0 > 0 && d.1 > 0)
        &&& (self.src_rect matches Some(Some(r)) ==> r.wf())
        &&& (self.buffer matches Some(Some(b)) ==> b.wf())
        &&& distinct_children(self.subsurfaces@)
        &&& forall|i: int|
            0 <= i < self.subsurfaces@.len() ==> (#[trigger] self.subsurfaces@[i]).state.wf()
    }

    /// Whether `r` is what merging `b` into `a` gives: the fields of `b` that are set
    /// win, offsets add up, damage and the two lists accumulate, and each child of
    /// `b` is merged into the child of `a` with the same identity or, where `a` has
    /// none, follows the children of `a` in the order of `b`.
    pub open spec fn merged(a: PendingState, b: PendingState, r: PendingState) -> bool
        decreases b,
    {
        &&& r.buffer == later(a.buffer, b.buffer)
        &&& r.offset == (wrapping_sum(a.offset.0, b.offset.0), wrapping_sum(a.offset.1, b.offset.1))
        &&& r.opaque_region == later(a.opaque_region, b.opaque_region)
        &&& r.input_region == later(a.input_region, b.input_region)
        &&& r.frame_request@ == a.frame_request@ + b.frame_request@
        &&& r.damage == (a.damage || b.damage)
        &&& r.presentation_feedback@ == a.presentation_feedback@ + b.presentation_feedback@
        &&& r.src_rect == later(a.src_rect, b.src_rect)
        &&& r.dst_size == later(a.dst_size, b.dst_size)
        &&& r.scale == later(a.scale, b.scale)
        &&& r.transform == later(a.transform, b.transform)
        &&& r.xwayland_serial == later(a.xwayland_serial, b.xwayland_serial)
        &&& r.tearing == later(a.tearing, b.tearing)
        &&& r.content_type == later(a.content_type, b.content_type)
        &&& r.subsurface == spec_merge_subsurface_data(a.subsurface, b.subsurface)
        &&& r.xdg_surface == spec_merge_xdg_surface_data(a.xdg_surface, b.xdg_surface)
        &&& r.layer_surface == spec_merge_layer_surface_data(a.layer_surface, b.layer_surface)
        &&& r.acquire_point == later(a.acquire_point, b.acquire_point)
        &&& r.release_point == later(
            if b.buffer is Some {
                None
            } else {
                a.release_point
            },
            b.release_point,
        )
        &&& r.explicit_sync == a.explicit_sync
        &&& PendingState::merged_children(
            a.subsurfaces@,
            b.subsurfaces@,
            b.subsurfaces@.len() as int,
            r.subsurfaces@,
        )
    }

    /// Whether `r` is what merging the first `n` children of `b` into the children
    /// `a` gives: the children of `a` stay where they are, each merged with the child
    /// of `b` that has its identity, and the children that only `b` has follow.
    pub open spec fn merged_children(
        a: Seq<CommittedSubsurface>,
        b: Seq<CommittedSubsurface>,
        n: int,
        r: Seq<CommittedSubsurface>,
    ) -> bool
        decreases b, n,
    {
        &&& r.len() >= a.len()
        &&& forall|j: int|
            0 <= j < a.len() ==> (#[trigger] r[j]).id == a[j].id && r[j].surface == a[j].surface
        &&& forall|j: int, k: int|
            0 <= j < a.len() && 0 <= k < n && k < b.len() && (#[trigger] b[k]).id == (
            #[trigger] a[j]).id ==> PendingState::merged(a[j].state, b[k].state, r[j].state)
        &&& forall|j: int|
            0 <= j < a.len() && !among_first(b, n, (#[trigger] a[j]).id) ==> r[j].state
                == a[j].state
        &&& r.subrange(a.len() as int, r.len() as int) == new_children(a, b, n)
    }

    pub fn new() -> (r: PendingState)
        ensures
            r.is_empty_state(),
            !r.explicit_sync,
            r.wf(),
    {
        PendingState {
            buffer: None,
            offset: (0, 0),
            opaque_region: None,
            input_region: None,
            frame_request: Vec::new(),
            damage: false,
            presentation_feedback: Vec::new(),
            src_rect: None,
            dst_size: None,
            scale: None,
            transform: None,
            xwayland_serial: None,
            tearing: None,
            content_type: None,
            subsurface: None,
            xdg_surface: None,
            layer_surface: None,
            subsurfaces: Vec::new(),
            acquire_point: None,
            release_point: None,
            explicit_sync: false,
        }
    }

    /// Hands out what has accumulated and starts a new cycle.
    pub fn take(&mut self) -> (r: PendingState)
        ensures
            r == *old(self),
            final(self).is_empty_state(),
            !final(self).explicit_sync,
            final(self).wf(),
    {
        let mut r = PendingState::new();
        std::mem::swap(self, &mut r);
        r
    }

    /// A buffer, or none, is to be shown from the next commit on. The last attach
    /// of a cycle wins; the offsets of all of them add up.
    pub fn record_buffer_attach(&mut self, buffer: Option<WlBuffer>, dx: i32, dy: i32)
        ensures
            *final(self) == (PendingState {
                buffer: Some(buffer),
                offset: (wrapping_sum(old(self).offset.0, dx), wrapping_sum(old(self).offset.1, dy)),
                ..*old(self)
            }),
    {
        self.buffer = Some(buffer);
        self.offset = (self.offset.0.wrapping_add(dx), self.offset.1.wrapping_add(dy));
    }

    /// The content moves by `(dx, dy)` with the next buffer, on top of what was
    /// asked for before in this cycle.
    pub fn record_offset(&mut self, dx: i32, dy: i32)
        ensures
            *final(self) == (PendingState {
                offset: (wrapping_sum(old(self).offset.0, dx), wrapping_sum(old(self).offset.1, dy)),
                ..*old(self)
            }),
    {
        self.offset = (self.offset.0.wrapping_add(dx), self.offset.1.wrapping_add(dy));
    }

    pub fn record_damage(&mut self)
        ensures
            *final(self) == (PendingState { damage: true, ..*old(self) }),
    {
        self.damage = true;
    }

    /// The region of the given kind is replaced, or removed where `region` is none.
    pub fn record_region_set(&mut self, kind: RegionKind, region: Option<Region>)
        ensures
            kind == RegionKind::Opaque ==> *final(self) == (PendingState {
                opaque_region: Some(region),
                ..*old(self)
            }),
            kind == RegionKind::Input ==> *final(self) == (PendingState {
                input_region: Some(region),
                ..*old(self)
            }),
    {
        match kind {
            RegionKind::Opaque => {
                self.opaque_region = Some(region);
            },
            RegionKind::Input => {
                self.input_region = Some(region);
            },
        }
    }

    pub fn record_scale(&mut self, scale: i32)
        ensures
            *final(self) == (PendingState { scale: Some(scale), ..*old(self) }),
    {
        self.scale = Some(scale);
    }

    pub fn record_transform(&mut self, transform: Transform)
        ensures
            *final(self) == (PendingState { transform: Some(transform), ..*old(self) }),
    {
        self.transform = Some(transform);
    }

    /// The two halves of a viewport; a half that is not given keeps what the cycle
    /// has so far.
    pub fn record_viewport(
        &mut self,
        src_rect: Option<Option<SrcRect>>,
        dst_size: Option<Option<(i32, i32)>>,
    )
        ensures
            *final(self) == (PendingState {
                src_rect: later(old(self).src_rect, src_rect),
                dst_size: later(old(self).dst_size, dst_size),
                ..*old(self)
            }),
    {
        if src_rect.is_some() {
            self.src_rect = src_rect;
        }
        if dst_size.is_some() {
            self.dst_size = dst_size;
        }
    }

    /// One more callback to fire when the next frame is due. Every callback of a
    /// cycle is kept.
    pub fn record_frame_callback(&mut self, callback: u32)
        ensures
            final(self).frame_request@ == old(self).frame_request@.push(callback),
            (PendingState { frame_request: old(self).frame_request, ..*final(self) }) == *old(self),
    {
        self.frame_request.push(callback);
    }

    /// One more feedback object to answer when the commit is presented.
    pub fn record_presentation_feedback(&mut self, feedback: u32)
        ensures
            final(self).presentation_feedback@ == old(self).presentation_feedback@.push(feedback),
            (PendingState { presentation_feedback: old(self).presentation_feedback, ..*final(self) })
                == *old(self),
    {
        self.presentation_feedback.push(feedback);
    }

    /// The timeline points at which the next buffer may be read and at which it is
    /// given back. A point that is not given keeps what the cycle has so far.
    pub fn record_explicit_sync_points(
        &mut self,
        acquire: Option<SyncObjPoint>,
        release: Option<SyncObjPoint>,
    )
        ensures
            *final(self) == (PendingState {
                acquire_point: later(old(self).acquire_point, acquire),
                release_point: later(old(self).release_point, release),
                ..*old(self)
            }),
    {
        if acquire.is_some() {
            self.acquire_point = acquire;
        }
        if release.is_some() {
            self.release_point = release;
        }
    }

    pub fn record_content_type(&mut self, content_type: Option<ContentType>)
        ensures
            *final(self) == (PendingState { content_type: Some(content_type), ..*old(self) }),
    {
        self.content_type = Some(content_type);
    }

    pub fn record_tearing(&mut self, tearing: bool)
        ensures
            *final(self) == (PendingState { tearing: Some(tearing), ..*old(self) }),
    {
        self.tearing = Some(tearing);
    }

    pub fn record_xwayland_serial(&mut self, serial: u64)
        ensures
            *final(self) == (PendingState { xwayland_serial: Some(serial), ..*old(self) }),
    {
        self.xwayland_serial = Some(serial);
    }

    /// Folds the later delta `next` into this one, which was committed before it
    /// and not applied yet, and leaves `next` empty for the cycle that follows.
    pub fn merge(&mut self, next: &mut PendingState, live: &LiveBuffers, events: &mut Vec<Event>)
        requires
            old(self).wf(),
            old(next).wf(),
        ensures
            PendingState::merged(*old(self), *old(next), *final(self)),
            final(self).wf(),
            final(next).is_empty_state(),
            final(next).explicit_sync == old(next).explicit_sync,
            final(next).wf(),
            final(events)@ == old(events)@ + merge_events(*old(self), *old(next), *live),
        decreases *old(next),
    {
        let superseded: bool = next.buffer.is_some();
        self.discard_superseded(superseded, live, events);
        overwrite(&mut self.buffer, &mut next.buffer);
        overwrite(&mut self.opaque_region, &mut next.opaque_region);
        overwrite(&mut self.input_region, &mut next.input_region);
        overwrite(&mut self.src_rect, &mut next.src_rect);
        overwrite(&mut self.dst_size, &mut next.dst_size);
        overwrite(&mut self.scale, &mut next.scale);
        overwrite(&mut self.transform, &mut next.transform);
        overwrite(&mut self.xwayland_serial, &mut next.xwayland_serial);
        overwrite(&mut self.tearing, &mut next.tearing);
        overwrite(&mut self.content_type, &mut next.content_type);
        overwrite(&mut self.acquire_point, &mut next.acquire_point);
        overwrite(&mut self.release_point, &mut next.release_point);
        self.offset = (
            self.offset.0.wrapping_add(next.offset.0),
            self.offset.1.wrapping_add(next.offset.1),
        );
        next.offset = (0, 0);
        self.frame_request.append(&mut next.frame_request);
        self.damage = self.damage || next.damage;
        next.damage = false;
        self.presentation_feedback.append(&mut next.presentation_feedback);
        merge_subsurface_data(&mut self.subsurface, &mut next.subsurface);
        merge_xdg_surface_data(&mut self.xdg_surface, &mut next.xdg_surface);
        merge_layer_surface_data(&mut self.layer_surface, &mut next.layer_surface);
        merge_children(&mut self.subsurfaces, &mut next.subsurfaces, live, events);
        proof {
            let own = if old(next).buffer is Some {
                discard_buffer_events(*old(self), *live)
            } else {
                seq![]
            };
            let kids = children_merge_events(
                old(self).subsurfaces@,
                old(next).subsurfaces@,
                old(next).subsurfaces@.len() as int,
                *live,
            );
            assert(events@ =~= old(events)@ + (own + kids));
        }
    }

    /// Pays what is owed for the buffer of this delta where a later delta brings
    /// a buffer of its own, and forgets the release point that went with it.
    pub fn discard_superseded(&mut self, superseded: bool, live: &LiveBuffers, events: &mut Vec<Event>)
        ensures
            *final(self) == (PendingState {
                release_point: if superseded {
                    None
                } else {
                    old(self).release_point
                },
                ..*old(self)
            }),
            final(events)@ == old(events)@ + (if superseded {
                discard_buffer_events(*old(self), *live)
            } else {
                seq![]
            }),
    {
        if superseded {
            match self.release_point.take() {
                Some(point) => {
                    events.push(Event::SignalPoint { point });
                },
                None => {
                    match self.buffer {
                        Some(Some(prev)) => {
                            if live.is_live(prev.id) {
                                events.push(Event::SendRelease { buffer: prev.id });
                            }
                        },
                        _ => {},
                    }
                },
            }
        }
        assert(events@ =~= old(events)@ + (if superseded {
            discard_buffer_events(*old(self), *live)
        } else {
            seq![]
        }));
    }

    /// The index of the child with the identity, where there is one.
    pub fn find_child(&self, id: u64) -> (r: Option<usize>)
        ensures
            r.is_some() <==> has_child(self.subsurfaces@, id),
            r matches Some(j) ==> j < self.subsurfaces@.len() && self.subsurfaces@[j as int].id
                == id,
    {
        find_child(&self.subsurfaces, id)
    }
}

/// Moves a field that the later delta has set over the same field of the earlier one.
pub fn overwrite<T>(first: &mut Option<T>, second: &mut Option<T>)
    ensures
        *final(first) == later(*old(first), *old(second)),
        *final(second) is None,
{
    if second.is_some() {
        std::mem::swap(first, second);
        *second = None;
    }
}

pub open spec fn spec_merge_subsurface_data(
    first: Option<PendingSubsurfaceData>,
    second: Option<PendingSubsurfaceData>,
) -> Option<PendingSubsurfaceData> {
    match (first, second) {
        (Some(x), Some(y)) => Some(x.spec_merge(y)),
        _ => later(first, second),
    }
}

pub open spec fn spec_merge_xdg_surface_data(
    first: Option<PendingXdgSurfaceData>,
    second: Option<PendingXdgSurfaceData>,
) -> Option<PendingXdgSurfaceData> {
    match (first, second) {
        (Some(x), Some(y)) => Some(x.spec_merge(y)),
        _ => later(first, second),
    }
}

pub open spec fn spec_merge_layer_surface_data(
    first: Option<PendingLayerSurfaceData>,
    second: Option<PendingLayerSurfaceData>,
) -> Option<PendingLayerSurfaceData> {
    match (first, second) {
        (Some(x), Some(y)) => Some(x.spec_merge(y)),
        _ => later(first, second),
    }
}

pub fn merge_subsurface_data(
    first: &mut Option<PendingSubsurfaceData>,
    second: &mut Option<PendingSubsurfaceData>,
)
    ensures
        *final(first) == spec_merge_subsurface_data(*old(first), *old(second)),
        *final(second) is None,
{
    match (*first, *second) {
        (Some(mut x), Some(y)) => {
            x.merge(&y);
            *first = Some(x);
        },
        (None, Some(y)) => {
            *first = Some(y);
        },
        _ => {},
    }
    *second = None;
}

pub fn merge_xdg_surface_data(
    first: &mut Option<PendingXdgSurfaceData>,
    second: &mut Option<PendingXdgSurfaceData>,
)
    ensures
        *final(first) == spec_merge_xdg_surface_data(*old(first), *old(second)),
        *final(second) is None,
{
    match (*first, *second) {
        (Some(mut x), Some(y)) => {
            x.merge(&y);
            *first = Some(x);
        },
        (None, Some(y)) => {
            *first = Some(y);
        },
        _ => {},
    }
    *second = None;
}

pub fn merge_layer_surface_data(
    first: &mut Option<PendingLayerSurfaceData>,
    second: &mut Option<PendingLayerSurfaceData>,
)
    ensures
        *final(first) == spec_merge_layer_surface_data(*old(first), *old(second)),
        *final(second) is None,
{
    match (*first, *second) {
        (Some(mut x), Some(y)) => {
            x.merge(&y);
            *first = Some(x);
        },
        (None, Some(y)) => {
            *first = Some(y);
        },
        _ => {},
    }
    *second = None;
}

/// Whether one of the first `n` children has the identity.
pub open spec fn among_first(children: Seq<CommittedSubsurface>, n: int, id: u64) -> bool {
    exists|k: int| 0 <= k < n && k < children.len() && (#[trigger] children[k]).id == id
}

/// Those of the first `n` children of `b` whose identity no child of `a` has.
pub open spec fn new_children(
    a: Seq<CommittedSubsurface>,
    b: Seq<CommittedSubsurface>,
    n: int,
) -> Seq<CommittedSubsurface>
    decreases n,
{
    if n <= 0 || n > b.len() {
        seq![]
    } else if has_child(a, b[n - 1].id) {
        new_children(a, b, n - 1)
    } else {
        new_children(a, b, n - 1).push(b[n - 1])
    }
}

/// Every one of the new children is one of the first `n` children of `b`.
pub proof fn lemma_new_children_from(
    a: Seq<CommittedSubsurface>,
    b: Seq<CommittedSubsurface>,
    n: int,
    i: int,
)
    requires
        0 <= n <= b.len(),
        0 <= i < new_children(a, b, n).len(),
    ensures
        among_first(b, n, new_children(a, b, n)[i].id),
        !has_child(a, new_children(a, b, n)[i].id),
        exists|k: int| 0 <= k < n && b[k] == new_children(a, b, n)[i],
    decreases n,
{
    if n > 0 {
        if has_child(a, b[n - 1].id) {
            lemma_new_children_from(a, b, n - 1, i);
            let k = choose|k: int| 0 <= k < n - 1 && b[k] == new_children(a, b, n - 1)[i];
            assert(b[k].id == new_children(a, b, n)[i].id);
        } else if i < new_children(a, b, n - 1).len() {
            lemma_new_children_from(a, b, n - 1, i);
            let k = choose|k: int| 0 <= k < n - 1 && b[k] == new_children(a, b, n - 1)[i];
            assert(b[k].id == new_children(a, b, n)[i].id);
        } else {
            assert(b[n - 1].id == new_children(a, b, n)[i].id);
        }
    }
}

pub fn find_child(children: &Vec<CommittedSubsurface>, id: u64) -> (r: Option<usize>)
    ensures
        r.is_some() <==> has_child(children@, id),
        r matches Some(j) ==> j < children@.len() && children@[j as int].id == id,
{
    let mut i: usize = 0;
    while i < children.len()
        invariant
            0 <= i <= children.len(),
            forall|j: int| 0 <= j < i ==> (#[trigger] children@[j]).id != id,
        decreases children.len() - i,
    {
        if children[i].id == id {
            return Some(i);
        }
        i += 1;
    }
    None
}

/// Merges the children `kids` of a later delta into the children of the delta
/// before it, and leaves `kids` empty.
pub fn merge_children(
    children: &mut Vec<CommittedSubsurface>,
    kids: &mut Vec<CommittedSubsurface>,
    live: &LiveBuffers,
    events: &mut Vec<Event>,
)
    requires
        distinct_children(old(children)@),
        distinct_children(old(kids)@),
        forall|i: int| 0 <= i < old(children)@.len() ==> (#[trigger] old(children)@[i]).state.wf(),
        forall|i: int| 0 <= i < old(kids)@.len() ==> (#[trigger] old(kids)@[i]).state.wf(),
    ensures
        PendingState::merged_children(
            old(children)@,
            old(kids)@,
            old(kids)@.len() as int,
            final(children)@,
        ),
        distinct_children(final(children)@),
        forall|i: int|
            0 <= i < final(children)@.len() ==> (#[trigger] final(children)@[i]).state.wf(),
        final(kids)@.len() == 0,
        final(events)@ == old(events)@ + children_merge_events(
            old(children)@,
            old(kids)@,
            old(kids)@.len() as int,
            *live,
        ),
    decreases old(kids)@,
{
    let ghost a0 = children@;
    let ghost b0 = kids@;
    let ghost ev0 = events@;
    let mut k: usize = 0;
    assert(a0.subrange(a0.len() as int, a0.len() as int) =~= new_children(a0, b0, 0));
    while k < kids.len()
        invariant
            0 <= k <= kids.len(),
            kids@.len() == b0.len(),
            b0 == old(kids)@,
            a0 == old(children)@,
            ev0 == old(events)@,
            distinct_children(a0),
            distinct_children(b0),
            forall|i: int| k <= i < kids@.len() ==> #[trigger] kids@[i] == b0[i],
            forall|i: int| 0 <= i < b0.len() ==> (#[trigger] b0[i]).state.wf(),
            PendingState::merged_children(a0, b0, k as int, children@),
            distinct_children(children@),
            forall|i: int| 0 <= i < children@.len() ==> (#[trigger] children@[i]).state.wf(),
            events@ == ev0 + children_merge_events(a0, b0, k as int, *live),
        decreases kids.len() - k,
    {
        let ghost cur = children@;
        let ghost evk = events@;
        let id: u64 = kids[k].id;
        let surface: usize = kids[k].surface;
        let found = find_child(children, id);
        proof {
            assert(kids@[k as int] == b0[k as int]);
            assert(cur.subrange(a0.len() as int, cur.len() as int) == new_children(a0, b0, k as int));
            assert forall|j: int| a0.len() <= j < cur.len() implies (#[trigger] cur[j]).id != id by {
                let t = j - a0.len();
                assert(cur[j] == cur.subrange(a0.len() as int, cur.len() as int)[t]);
                lemma_new_children_from(a0, b0, k as int, t);
                let kk = choose|kk: int| 0 <= kk < k && b0[kk] == new_children(a0, b0, k as int)[t];
                assert(b0[kk].id != b0[k as int].id);
            }
        }
        match found {
            Some(j) => {
                proof {
                    assert(j < a0.len());
                    assert(a0[j as int].id == id);
                    assert(has_child(a0, id));
                    assert(!among_first(b0, k as int, a0[j as int].id)) by {
                        if among_first(b0, k as int, a0[j as int].id) {
                            let kk = choose|kk: int|
                                0 <= kk < k && kk < b0.len() && (#[trigger] b0[kk]).id == a0[j as int].id;
                            assert(b0[kk].id != b0[k as int].id);
                        }
                    }
                    assert(cur[j as int].state == a0[j as int].state);
                }
                let child = &mut children[j];
                let kid = &mut kids[k];
                child.state.merge(&mut kid.state, live, events);
                proof {
                    let now = children@;
                    let jc = choose|jc: int| 0 <= jc < a0.len() && (#[trigger] a0[jc]).id == id;
                    assert(jc == j) by {
                        if jc < j {
                            assert(a0[jc].id != a0[j as int].id);
                        } else if jc > j {
                            assert(a0[j as int].id != a0[jc].id);
                        }
                    }
                    assert(events@ =~= ev0 + children_merge_events(a0, b0, k as int + 1, *live));
                    assert(now.len() == cur.len());
                    assert forall|i: int| 0 <= i < now.len() && i != j implies now[i] == cur[i] by {}
                    assert(now[j as int].id == cur[j as int].id);
                    assert(now[j as int].surface == cur[j as int].surface);
                    assert(distinct_children(now)) by {
                        assert forall|p: int, q: int| 0 <= p < q < now.len() implies (
                        #[trigger] now[p]).id != (#[trigger] now[q]).id by {
                            assert(cur[p].id != cur[q].id);
                        }
                    }
                    assert(now.subrange(a0.len() as int, now.len() as int) =~= cur.subrange(
                        a0.len() as int,
                        cur.len() as int,
                    ));
                    assert(new_children(a0, b0, k as int + 1) == new_children(a0, b0, k as int));
                    assert forall|jj: int, kk: int|
                        0 <= jj < a0.len() && 0 <= kk < k + 1 && kk < b0.len() && (
                        #[trigger] b0[kk]).id == (#[trigger] a0[jj]).id implies PendingState::merged(
                        a0[jj].state,
                        b0[kk].state,
                        now[jj].state,
                    ) by {
                        if kk == k {
                            if jj < j {
                                assert(a0[jj].id != a0[j as int].id);
                            } else if jj > j {
                                assert(a0[j as int].id != a0[jj].id);
                            }
                        } else {
                            if jj == j {
                                assert(b0[kk].id != b0[k as int].id);
                            }
                        }
                    }
                    assert forall|jj: int|
                        0 <= jj < a0.len() && !among_first(b0, k as int + 1, (#[trigger] a0[jj]).id)
                        implies now[jj].state == a0[jj].state by {
                        if jj == j {
                            assert(b0[k as int].id == a0[jj].id);
                            assert(among_first(b0, k as int + 1, a0[jj].id));
                        } else {
                            if among_first(b0, k as int, a0[jj].id) {
                                let kk = choose|kk: int|
                                    0 <= kk < k && kk < b0.len() && (#[trigger] b0[kk]).id
                                        == a0[jj].id;
                                assert(b0[kk].id == a0[jj].id);
                                assert(among_first(b0, k as int + 1, a0[jj].id));
                            }
                        }
                    }
                }
            },
            None => {
                let kid = &mut kids[k];
                let mut state = PendingState::new();
                std::mem::swap(&mut kid.state, &mut state);
                children.push(CommittedSubsurface { id, surface, state });
                proof {
                    let now = children@;
                    assert(now[now.len() - 1] == b0[k as int]);
                    assert(!has_child(a0, id)) by {
                        if has_child(a0, id) {
                            let jc = choose|jc: int| 0 <= jc < a0.len() && (#[trigger] a0[jc]).id == id;
                            assert(cur[jc].id == id);
                        }
                    }
                    assert(events@ =~= ev0 + children_merge_events(a0, b0, k as int + 1, *live));
                    assert(new_children(a0, b0, k as int + 1) == new_children(a0, b0, k as int).push(
                        b0[k as int],
                    ));
                    assert(now.subrange(a0.len() as int, now.len() as int) =~= cur.subrange(
                        a0.len() as int,
                        cur.len() as int,
                    ).push(b0[k as int]));
                    assert forall|i: int| 0 <= i < cur.len() implies now[i] == cur[i] by {}
                    assert(distinct_children(now)) by {
                        assert forall|p: int, q: int| 0 <= p < q < now.len() implies (
                        #[trigger] now[p]).id != (#[trigger] now[q]).id by {
                            if q < cur.len() {
                                assert(cur[p].id != cur[q].id);
                            } else {
                                assert(cur[p].id != id);
                            }
                        }
                    }
                    assert forall|jj: int|
                        0 <= jj < a0.len() && !among_first(b0, k as int + 1, (#[trigger] a0[jj]).id)
                        implies now[jj].state == a0[jj].state by {
                        if among_first(b0, k as int, a0[jj].id) {
                            let kk = choose|kk: int|
                                0 <= kk < k && kk < b0.len() && (#[trigger] b0[kk]).id == a0[jj].id;
                            assert(b0[kk].id == a0[jj].id);
                            assert(among_first(b0, k as int + 1, a0[jj].id));
                        }
                    }
                    assert forall|jj: int, kk: int|
                        0 <= jj < a0.len() && 0 <= kk < k + 1 && kk < b0.len() && (
                        #[trigger] b0[kk]).id == (#[trigger] a0[jj]).id implies PendingState::merged(
                        a0[jj].state,
                        b0[kk].state,
                        now[jj].state,
                    ) by {
                        if kk == k {
                            assert(cur[jj].id == id);
                        }
                    }
                }
            },
        }
        k += 1;
    }
    kids.clear();
}

/// What is owed when a commit is given up for good: for its buffer, and for the
/// buffers of the commits of the first `n` children that it carries.
pub open spec fn discard_events(state: PendingState, live: LiveBuffers) -> Seq<Event>
    decreases state, 0nat,
{
    discard_buffer_events(state, live) + children_discard_events(
        state.subsurfaces@,
        state.subsurfaces@.len() as int,
        live,
    )
}

pub open spec fn children_discard_events(
    kids: Seq<CommittedSubsurface>,
    n: int,
    live: LiveBuffers,
) -> Seq<Event>
    decreases kids, n,
{
    if n <= 0 || n > kids.len() {
        seq![]
    } else {
        children_discard_events(kids, n - 1, live) + discard_events(kids[n - 1].state, live)
    }
}

impl PendingState {
    /// Gives the commit up without applying it, and pays what is owed for the
    /// buffers that it and the commits of children in it hold.
    pub fn discard(self, live: &LiveBuffers, events: &mut Vec<Event>)
        ensures
            final(events)@ == old(events)@ + discard_events(self, *live),
        decreases self, 0nat,
    {
        let mut this = self;
        this.discard_superseded(true, live, events);
        let ghost own = events@;
        let mut kids: Vec<CommittedSubsurface> = Vec::new();
        std::mem::swap(&mut this.subsurfaces, &mut kids);
        let ghost kids0 = kids@;
        let mut i: usize = 0;
        while i < kids.len()
            invariant
                0 <= i <= kids.len(),
                kids@.len() == kids0.len(),
                kids0 == self.subsurfaces@,
                forall|j: int| i <= j < kids@.len() ==> #[trigger] kids@[j] == kids0[j],
                events@ == own + children_discard_events(kids0, i as int, *live),
            decreases kids.len() - i,
        {
            let mut state = PendingState::new();
            let kid = &mut kids[i];
            std::mem::swap(&mut kid.state, &mut state);
            assert(state == kids0[i as int].state);
            state.discard(live, events);
            assert(events@ =~= own + children_discard_events(kids0, i as int + 1, *live));
            i += 1;
        }
        assert(events@ =~= old(events)@ + discard_events(self, *live));
    }
}

/// Where a commit that attaches a buffer is superseded, before it is applied, by a
/// commit that attaches another, the first buffer is given back exactly once, by
/// the signal of its release point or else by the plain notification, and the
/// merged commit brings the second buffer with the points of the second commit.
/// This holds where the release can reach the client: the first commit names a
/// release point, or the client has not destroyed the first buffer.
pub proof fn lemma_superseded_buffer_released(
    a: PendingState,
    b: PendingState,
    r: PendingState,
    live: LiveBuffers,
    first: WlBuffer,
    second: WlBuffer,
)
    requires
        a.buffer == Some(Some(first)),
        b.buffer == Some(Some(second)),
        b.subsurfaces@.len() == 0,
        a.release_point is Some || live.spec_is_live(first.id),
        PendingState::merged(a, b, r),
    ensures
        r.buffer == Some(Some(second)),
        r.release_point == b.release_point,
        merge_events(a, b, live) == (match a.release_point {
            Some(point) => seq![Event::SignalPoint { point }],
            None => seq![Event::SendRelease { buffer: first.id }],
        }),
        crate::client::release_count(merge_events(a, b, live)) == 1,
{
    let own = discard_buffer_events(a, live);
    assert(children_merge_events(a.subsurfaces@, b.subsurfaces@, 0, live) =~= seq![]);
    assert(merge_events(a, b, live) =~= own);
    crate::client::lemma_release_count_push(seq![], own[0]);
    assert(seq![].push(own[0]) =~= own);
}

/// Merging is additive in the offsets and keeps every callback and every feedback
/// object of both commits, first those of the earlier one.
pub proof fn lemma_merge_accumulates(a: PendingState, b: PendingState, r: PendingState)
    requires
        PendingState::merged(a, b, r),
    ensures
        r.offset.0 == wrapping_sum(a.offset.0, b.offset.0),
        r.offset.1 == wrapping_sum(a.offset.1, b.offset.1),
        i32::MIN <= a.offset.0 + b.offset.0 <= i32::MAX ==> r.offset.0 == a.offset.0 + b.offset.0,
        i32::MIN <= a.offset.1 + b.offset.1 <= i32::MAX ==> r.offset.1 == a.offset.1 + b.offset.1,
        r.frame_request@.len() == a.frame_request@.len() + b.frame_request@.len(),
        r.presentation_feedback@.len() == a.presentation_feedback@.len()
            + b.presentation_feedback@.len(),
        r.damage == (a.damage || b.damage),
{
}

} // verus!
