//! What belongs to one connection besides its surfaces: the buffers that are alive,
//! the index of surfaces by serial, and the work that the pipeline hands on to the
//! parts of the compositor that talk to the client, the kernel and the renderer.

use vstd::prelude::*;
use crate::gfx_api::{SyncFile, SyncObjPoint};
use crate::ifs::wl_surface::commit_timeline::CommitTimeline;
use crate::ifs::wl_surface::cursor::CursorSurface;
use crate::ifs::wl_surface::pending::PendingState;
use crate::ifs::wl_surface::{BufferFence, StackElement, WlSurface};
use crate::utils::copyhashmap::CopyHashMap;

verus! {

/// One piece of work for a collaborator. The pipeline appends events in the order in
/// which they have to be carried out. Surfaces are named by their place in the
/// client's table of surfaces, buffers by their identity.
#[derive(Copy, Clone, Debug, PartialEq, Eq, Structural)]
pub enum Event {
    /// Send the plain release notification of the buffer to the client.
    SendRelease { buffer: u32 },
    /// Signal the point, whatever fences are outstanding.
    SignalPoint { point: SyncObjPoint },
    /// One of the fences that the next `ReleaseImported` of the point speaks of.
    ImportIntoPoint { point: SyncObjPoint, sync_file: SyncFile },
    /// Import the fences named since the last release of the point into it, so that
    /// it signals once all of them have. Where the import fails,
    /// `SurfaceBuffer::import_failed` says what is owed instead.
    ReleaseImported { point: SyncObjPoint },
    /// Import the fence into the implicit synchronisation of the buffer, as a read.
    ImportIntoBuffer { buffer: u32, sync_file: SyncFile },
    /// A release point could not be signalled because there is no render context.
    MissingRenderContext { point: SyncObjPoint },
    /// Tell the client that the feedback object will never be presented, and remove it.
    PresentationDiscarded { feedback: u32 },
    /// Upload the contents of the buffer that was just attached.
    UpdateTexture { buffer: u32 },
    /// The surface was bound to a serial of the X server.
    SurfaceSerialAssigned { surface: usize },
    /// The bounding rectangle of a surface with a role object changed.
    ExtentsChanged { surface: usize },
    /// The content of a cursor surface changed for the seat.
    CursorChanged { surface: usize, seat: u32 },
    /// Wake the surface with `WlSurface::fence_ready` once the point has signalled.
    AwaitAcquire { surface: usize, point: SyncObjPoint },
    /// A surface became visible or invisible.
    VisibilityChanged { surface: usize, visible: bool },
    /// Tell the client the integer scale that suits the surface best.
    PreferredBufferScale { surface: usize, factor: u32 },
    /// Tell the client the transform that suits the surface best, by its wire number.
    PreferredBufferTransform { surface: usize, transform: i32 },
    /// Tell the client that the surface entered the output.
    Enter { surface: usize, output: u32 },
    /// Tell the client that the surface left the output.
    Leave { surface: usize, output: u32 },
    /// The window geometry of a shell surface takes effect.
    XdgGeometry { surface: usize, geometry: crate::rect::Rect },
    /// The size that a layer surface asked for takes effect.
    LayerSize { surface: usize, width: i32, height: i32 },
    /// Everything on screen has to be drawn again.
    Damage,
}

/// Whether the event ends a client's wait for a buffer: the plain notification, or one
/// of the two ways in which a release point comes to signal.
pub open spec fn is_release(e: Event) -> bool {
    e is SendRelease || e is SignalPoint || e is ReleaseImported
}

/// The number of releases among the events.
pub open spec fn release_count(events: Seq<Event>) -> nat
    decreases events.len(),
{
    if events.len() == 0 {
        0
    } else {
        release_count(events.drop_last()) + if is_release(events.last()) {
            1nat
        } else {
            0nat
        }
    }
}

/// Releases add up over events that follow one another.
pub proof fn lemma_release_count_add(a: Seq<Event>, b: Seq<Event>)
    ensures
        release_count(a + b) == release_count(a) + release_count(b),
    decreases b.len(),
{
    if b.len() == 0 {
        assert(a + b =~= a);
    } else {
        lemma_release_count_add(a, b.drop_last());
        assert((a + b).drop_last() =~= a + b.drop_last());
        assert((a + b).last() == b.last());
    }
}

pub proof fn lemma_release_count_push(a: Seq<Event>, e: Event)
    ensures
        release_count(a.push(e)) == release_count(a) + if is_release(e) {
            1nat
        } else {
            0nat
        },
{
    assert(a.push(e).drop_last() =~= a);
}

/// The buffers of the client that it has not destroyed, by their identity.
#[derive(Debug)]
pub struct LiveBuffers {
    pub ids: Vec<u32>,
}

impl LiveBuffers {
    pub open spec fn spec_is_live(self, id: u32) -> bool {
        self.ids@.contains(id)
    }

    pub fn new() -> (r: LiveBuffers)
        ensures
            forall|id: u32| !r.spec_is_live(id),
    {
        LiveBuffers { ids: Vec::new() }
    }

    pub fn is_live(&self, id: u32) -> (r: bool)
        ensures
            r == self.spec_is_live(id),
    {
        let mut i: usize = 0;
        while i < self.ids.len()
            invariant
                0 <= i <= self.ids.len(),
                forall|j: int| 0 <= j < i ==> self.ids@[j] != id,
            decreases self.ids.len() - i,
        {
            if self.ids[i] == id {
                return true;
            }
            i += 1;
        }
        false
    }

    /// A buffer of the client came into being.
    pub fn create(&mut self, id: u32)
        ensures
            forall|other: u32|
                final(self).spec_is_live(other) == (other == id || old(self).spec_is_live(other)),
    {
        self.ids.push(id);
        assert forall|other: u32|
            self.spec_is_live(other) == (other == id || old(self).spec_is_live(other)) by {
            if old(self).spec_is_live(other) {
                let j = choose|j: int| 0 <= j < old(self).ids@.len() && old(self).ids@[j] == other;
                assert(self.ids@[j] == other);
            }
            if other == id {
                assert(self.ids@[self.ids@.len() - 1] == id);
            }
        }
    }

    /// The client destroyed the buffer.
    pub fn destroy(&mut self, id: u32)
        ensures
            forall|other: u32|
                final(self).spec_is_live(other) == (other != id && old(self).spec_is_live(other)),
    {
        let mut kept: Vec<u32> = Vec::new();
        let mut i: usize = 0;
        while i < self.ids.len()
            invariant
                0 <= i <= self.ids.len(),
                forall|j: int|
                    0 <= j < kept@.len() ==> kept@[j] != id && self.ids@.contains(
                        #[trigger] kept@[j],
                    ),
                forall|j: int|
                    0 <= j < i && self.ids@[j] != id ==> kept@.contains(#[trigger] self.ids@[j]),
            decreases self.ids.len() - i,
        {
            let v: u32 = self.ids[i];
            let ghost before = kept@;
            if v != id {
                kept.push(v);
                assert(kept@[kept@.len() - 1] == v);
            }
            proof {
                assert(self.ids@[i as int] == v);
                assert forall|j: int| 0 <= j < i && self.ids@[j] != id implies kept@.contains(
                    #[trigger] self.ids@[j],
                ) by {
                    let k = choose|k: int| 0 <= k < before.len() && before[k] == self.ids@[j];
                    assert(kept@[k] == self.ids@[j]);
                }
            }
            i += 1;
        }
        proof {
            assert forall|other: u32|
                kept@.contains(other) == (other != id && old(self).spec_is_live(other)) by {
                if other != id && old(self).spec_is_live(other) {
                    let j = choose|j: int| 0 <= j < self.ids@.len() && self.ids@[j] == other;
                    assert(kept@.contains(self.ids@[j]));
                }
            }
        }
        self.ids = kept;
    }
}

/// Why the connection refused what a client asked for.
#[derive(Copy, Clone, Debug, PartialEq, Eq, Structural)]
pub enum ClientError {
    /// The object has no such request in its version.
    InvalidMethod,
    /// There is no object with the identity.
    UnknownId(u32),
}

/// Why a message of a client could not be read.
#[derive(Copy, Clone, Debug, PartialEq, Eq, Structural)]
pub enum MsgParserError {
    TrailingData,
}

/// The use of a surface as the icon that a seat drags along.
#[derive(Copy, Clone, Debug, PartialEq, Eq, Structural)]
pub struct DndIcon {
    pub surface: usize,
    pub seat: u32,
}

/// A callback that fires when the next frame of the surface is due.
#[derive(Copy, Clone, Debug, PartialEq, Eq, Structural)]
pub struct FrameRequest {
    pub surface: usize,
    pub callback: u32,
}

/// A feedback object that is answered when the content of the surface is presented.
#[derive(Copy, Clone, Debug, PartialEq, Eq, Structural)]
pub struct PresentationFeedback {
    pub surface: usize,
    pub feedback: u32,
}

/// One connection: its surfaces, what hangs on them, and the work that is due.
///
/// A surface is named by its place in `surfaces`, which it keeps for good.
/// `pending` and `commit_timelines` have one entry for each surface.
pub struct Client {
    pub surfaces: Vec<WlSurface>,
    /// What each surface has been asked to change since its last commit.
    pub pending: Vec<PendingState>,
    pub commit_timelines: Vec<CommitTimeline>,
    /// The children of all surfaces in the order in which they are painted.
    pub stack: Vec<StackElement>,
    pub cursors: Vec<CursorSurface>,
    /// The surfaces that seats drag along as icons.
    pub dnd_icons: Vec<DndIcon>,
    /// The callbacks of committed frames, ready to fire.
    pub frame_requests: Vec<FrameRequest>,
    /// The feedback objects of what is on screen next.
    pub presentation_feedback: Vec<PresentationFeedback>,
    /// The fences that readers hold on the buffers that surfaces show.
    pub sync_files: Vec<BufferFence>,
    pub surfaces_by_xwayland_serial: CopyHashMap,
    pub live_buffers: LiveBuffers,
    /// Whether there is a render context.
    pub render_ctx: bool,
    /// The work for the collaborators, oldest first.
    pub events: Vec<Event>,
}

/// A client as contracts see it.
pub struct Scene {
    pub surfaces: Seq<WlSurface>,
    pub pending: Seq<PendingState>,
    pub commit_timelines: Seq<CommitTimeline>,
    pub stack: Seq<StackElement>,
    pub cursors: Seq<CursorSurface>,
    pub dnd_icons: Seq<DndIcon>,
    pub frame_requests: Seq<FrameRequest>,
    pub presentation_feedback: Seq<PresentationFeedback>,
    pub sync_files: Seq<BufferFence>,
    pub serials: Map<u64, usize>,
    pub live_buffers: LiveBuffers,
    pub render_ctx: bool,
    pub events: Seq<Event>,
}

impl View for Client {
    type V = Scene;

    open spec fn view(&self) -> Scene {
        Scene {
            surfaces: self.surfaces@,
            pending: self.pending@,
            commit_timelines: self.commit_timelines@,
            stack: self.stack@,
            cursors: self.cursors@,
            dnd_icons: self.dnd_icons@,
            frame_requests: self.frame_requests@,
            presentation_feedback: self.presentation_feedback@,
            sync_files: self.sync_files@,
            serials: self.surfaces_by_xwayland_serial@,
            live_buffers: self.live_buffers,
            render_ctx: self.render_ctx,
            events: self.events@,
        }
    }
}

impl Scene {
    /// Every surface has its accumulator and its timeline, and holds values that
    /// requests can have put there.
    pub open spec fn wf(self) -> bool {
        &&& self.pending.len() == self.surfaces.len()
        &&& self.commit_timelines.len() == self.surfaces.len()
        &&& forall|i: int| 0 <= i < self.surfaces.len() ==> (#[trigger] self.surfaces[i]).wf()
        &&& forall|i: int| 0 <= i < self.pending.len() ==> (#[trigger] self.pending[i]).wf()
        &&& forall|i: int|
            0 <= i < self.commit_timelines.len() ==> (#[trigger] self.commit_timelines[i]).wf()
    }

    pub open spec fn has(self, s: int) -> bool {
        0 <= s < self.surfaces.len()
    }
}

impl Client {
    pub open spec fn wf(self) -> bool {
        self@.wf()
    }

    /// A client without surfaces.
    pub fn new(render_ctx: bool) -> (r: Client)
        ensures
            r.wf(),
            r@.surfaces.len() == 0,
            r@.stack.len() == 0,
            r@.cursors.len() == 0,
            r@.dnd_icons.len() == 0,
            r@.frame_requests.len() == 0,
            r@.presentation_feedback.len() == 0,
            r@.sync_files.len() == 0,
            r@.events.len() == 0,
            r@.serials == crate::utils::copyhashmap::no_entries(),
            r@.render_ctx == render_ctx,
            forall|id: u32| !r@.live_buffers.spec_is_live(id),
    {
        Client {
            surfaces: Vec::new(),
            pending: Vec::new(),
            commit_timelines: Vec::new(),
            stack: Vec::new(),
            cursors: Vec::new(),
            dnd_icons: Vec::new(),
            frame_requests: Vec::new(),
            presentation_feedback: Vec::new(),
            sync_files: Vec::new(),
            surfaces_by_xwayland_serial: CopyHashMap::new(),
            live_buffers: LiveBuffers::new(),
            render_ctx,
            events: Vec::new(),
        }
    }

    /// Makes a surface and returns its place.
    pub fn create_surface(&mut self, id: u32, version: u32) -> (r: usize)
        requires
            old(self).wf(),
        ensures
            final(self).wf(),
            r == old(self)@.surfaces.len(),
            final(self)@.surfaces.len() == r + 1,
            final(self)@.surfaces.subrange(0, r as int) == old(self)@.surfaces,
            final(self)@.surfaces[r as int] == WlSurface::spec_new(id, version),
            final(self)@.pending.subrange(0, r as int) == old(self)@.pending,
            final(self)@.pending[r as int].is_empty_state(),
            final(self)@.commit_timelines.subrange(0, r as int) == old(self)@.commit_timelines,
            final(self)@.commit_timelines[r as int].gated is None,
            final(self)@ == (Scene {
                surfaces: final(self)@.surfaces,
                pending: final(self)@.pending,
                commit_timelines: final(self)@.commit_timelines,
                ..old(self)@
            }),
    {
        let r = self.surfaces.len();
        self.surfaces.push(WlSurface::new(id, version));
        self.pending.push(PendingState::new());
        self.commit_timelines.push(CommitTimeline::new());
        assert(self@.surfaces.subrange(0, r as int) =~= old(self)@.surfaces);
        assert(self@.pending.subrange(0, r as int) =~= old(self)@.pending);
        assert(self@.commit_timelines.subrange(0, r as int) =~= old(self)@.commit_timelines);
        r
    }

    /// Takes the work that is due, oldest first, and leaves none.
    pub fn take_events(&mut self) -> (r: Vec<Event>)
        ensures
            r@ == old(self)@.events,
            final(self)@ == (Scene { events: Seq::empty(), ..old(self)@ }),
    {
        let mut r: Vec<Event> = Vec::new();
        std::mem::swap(&mut self.events, &mut r);
        assert(self@.events =~= Seq::empty());
        r
    }
}

/// The place of the first of the first `n` surfaces that has the identity and is not
/// destroyed.
pub open spec fn surface_with_id(surfaces: Seq<WlSurface>, id: u32, n: int) -> Option<usize>
    decreases n,
{
    if n <= 0 || n > surfaces.len() {
        None
    } else {
        match surface_with_id(surfaces, id, n - 1) {
            Some(i) => Some(i),
            None => if surfaces[n - 1].id == id && !surfaces[n - 1].destroyed {
                Some((n - 1) as usize)
            } else {
                None
            },
        }
    }
}

impl Client {
    /// The place of the surface that the client knows under the identity.
    pub fn lookup(&self, id: u32) -> (r: Result<usize, ClientError>)
        ensures
            match surface_with_id(self@.surfaces, id, self@.surfaces.len() as int) {
                Some(i) => r == Ok::<usize, ClientError>(i) && i < self@.surfaces.len()
                    && self@.surfaces[i as int].id == id && !self@.surfaces[i as int].destroyed,
                None => r == Err::<usize, ClientError>(ClientError::UnknownId(id)),
            },
    {
        let mut i: usize = 0;
        while i < self.surfaces.len()
            invariant
                0 <= i <= self.surfaces.len(),
                surface_with_id(self@.surfaces, id, i as int) is None,
            decreases self.surfaces.len() - i,
        {
            if self.surfaces[i].id == id && !self.surfaces[i].destroyed {
                proof {
                    lemma_surface_with_id_found(self@.surfaces, id, i as int, self@.surfaces.len() as int);
                }
                return Ok(i);
            }
            i += 1;
        }
        Err(ClientError::UnknownId(id))
    }
}

pub proof fn lemma_surface_with_id_found(surfaces: Seq<WlSurface>, id: u32, i: int, n: int)
    requires
        0 <= i < n <= surfaces.len(),
        surface_with_id(surfaces, id, i) is None,
        surfaces[i].id == id,
        !surfaces[i].destroyed,
    ensures
        surface_with_id(surfaces, id, n) == Some(i as usize),
    decreases n,
{
    if i < n - 1 {
        lemma_surface_with_id_found(surfaces, id, i, n - 1);
    }
}

} // verus!
