//! The requests of the surface protocol.

use vstd::prelude::*;
use crate::client::{Client, DndIcon, Event, FrameRequest, Scene};
use crate::ifs::wl_surface::apply::{buffer_released, frame_requests_without};
use crate::ifs::wl_surface::commit_timeline::ClearReason;
use crate::ifs::wl_surface::cursor::CursorSurface;
use crate::ifs::wl_surface::pending::discard_events;
use crate::ifs::wl_surface::tree::{is_child_of, set_visible_upto, visibility_set};
use crate::ifs::wl_surface::wl_subsurface::MAX_SUBSURFACE_DEPTH;
use crate::ifs::wl_surface::NoneSurfaceExt;
use crate::ifs::wl_buffer::WlBuffer;
use crate::ifs::wl_surface::commit_timeline::{
    committed, handed_to_parent, synchronized_parent, CommitTimeline,
};
use crate::ifs::wl_surface::pending::{
    find_child,
    later,
    wrapping_sum,
    CommittedSubsurface,
    ContentType,
    PendingState,
    RegionKind,
};
use crate::ifs::wl_surface::{
    CommitAction, SurfaceExt, SurfaceRole, WlSurface, WlSurfaceError, OFFSET_SINCE,
};
use crate::rect::Region;
use crate::transform::Transform;

verus! {

/// A request of a client to one of its surfaces, with its objects looked up.
#[derive(Debug)]
pub enum Request {
    Attach { buffer: Option<WlBuffer>, x: i32, y: i32 },
    Damage,
    Frame { callback: u32 },
    SetOpaqueRegion { region: Option<Region> },
    SetInputRegion { region: Option<Region> },
    Commit,
    SetBufferTransform { transform: i32 },
    SetBufferScale { scale: i32 },
    DamageBuffer,
    Offset { x: i32, y: i32 },
}

/// The accumulators with the one of the surface at `s` replaced by `p`.
pub open spec fn recorded(sc: Scene, s: usize, p: PendingState) -> Scene {
    Scene { pending: sc.pending.update(s as int, p), ..sc }
}

impl Request {
    /// The first version of the protocol that has the request.
    pub open spec fn spec_since(self) -> u32 {
        match self {
            Request::SetBufferTransform { .. } => 2,
            Request::SetBufferScale { .. } => 3,
            Request::DamageBuffer => 4,
            Request::Offset { .. } => 5,
            _ => 1,
        }
    }

    pub fn since(&self) -> (r: u32)
        ensures
            r == self.spec_since(),
    {
        match self {
            Request::SetBufferTransform { .. } => 2,
            Request::SetBufferScale { .. } => 3,
            Request::DamageBuffer => 4,
            Request::Offset { .. } => 5,
            _ => 1,
        }
    }
}

impl WlSurface {
    /// A buffer, or none, is to be shown from the next commit on. From the version
    /// that has the request `offset` on, an attach must not move the content;
    /// before it, the attach moves the content by `(x, y)`.
    pub fn attach(client: &mut Client, s: usize, buffer: Option<WlBuffer>, x: i32, y: i32) -> (r:
        Result<(), WlSurfaceError>)
        requires
            old(client).wf(),
            s < old(client)@.surfaces.len(),
            buffer matches Some(b) ==> b.wf(),
        ensures
            final(client).wf(),
            r.is_err() <==> (old(client)@.surfaces[s as int].version >= OFFSET_SINCE && (x != 0
                || y != 0)),
            r.is_err() ==> r == Err::<(), WlSurfaceError>(WlSurfaceError::OffsetInAttach)
                && final(client)@ == old(client)@,
            r.is_ok() ==> final(client)@ == recorded(
                old(client)@,
                s,
                PendingState {
                    buffer: Some(buffer),
                    offset: if old(client)@.surfaces[s as int].version >= OFFSET_SINCE {
                        old(client)@.pending[s as int].offset
                    } else {
                        (
                            wrapping_sum(old(client)@.pending[s as int].offset.0, x),
                            wrapping_sum(old(client)@.pending[s as int].offset.1, y),
                        )
                    },
                    ..old(client)@.pending[s as int]
                },
            ),
    {
        let version = client.surfaces[s].version;
        assert(old(client)@.pending[s as int].wf());
        if version >= OFFSET_SINCE {
            if x != 0 || y != 0 {
                return Err(WlSurfaceError::OffsetInAttach);
            }
            let pending = &mut client.pending[s];
            pending.record_buffer_attach(buffer, 0, 0);
        } else {
            let pending = &mut client.pending[s];
            pending.record_buffer_attach(buffer, x, y);
        }
        proof {
            lemma_recorded_wf(old(client)@, s, client@.pending[s as int]);
        }
        Ok(())
    }

    pub fn damage(client: &mut Client, s: usize)
        requires
            old(client).wf(),
            s < old(client)@.surfaces.len(),
        ensures
            final(client).wf(),
            final(client)@ == recorded(
                old(client)@,
                s,
                PendingState { damage: true, ..old(client)@.pending[s as int] },
            ),
    {
        assert(old(client)@.pending[s as int].wf());
        let pending = &mut client.pending[s];
        pending.record_damage();
        proof {
            lemma_recorded_wf(old(client)@, s, client@.pending[s as int]);
        }
    }

    pub fn damage_buffer(client: &mut Client, s: usize)
        requires
            old(client).wf(),
            s < old(client)@.surfaces.len(),
        ensures
            final(client).wf(),
            final(client)@ == recorded(
                old(client)@,
                s,
                PendingState { damage: true, ..old(client)@.pending[s as int] },
            ),
    {
        WlSurface::damage(client, s);
    }

    /// One more callback to fire when the next frame of the surface is due.
    pub fn frame(client: &mut Client, s: usize, callback: u32)
        requires
            old(client).wf(),
            s < old(client)@.surfaces.len(),
        ensures
            final(client).wf(),
            final(client)@ == recorded(old(client)@, s, final(client)@.pending[s as int]),
            final(client)@.pending[s as int].frame_request@ == old(client)@.pending[s as int].frame_request@.push(
                callback,
            ),
            (PendingState {
                frame_request: old(client)@.pending[s as int].frame_request,
                ..final(client)@.pending[s as int]
            }) == old(client)@.pending[s as int],
    {
        assert(old(client)@.pending[s as int].wf());
        let pending = &mut client.pending[s];
        pending.record_frame_callback(callback);
        proof {
            assert(client@.pending =~= old(client)@.pending.update(
                s as int,
                client@.pending[s as int],
            ));
            lemma_recorded_wf(old(client)@, s, client@.pending[s as int]);
        }
    }

    /// One more feedback object to answer when the next commit is presented.
    pub fn add_presentation_feedback(client: &mut Client, s: usize, feedback: u32)
        requires
            old(client).wf(),
            s < old(client)@.surfaces.len(),
        ensures
            final(client).wf(),
            final(client)@ == recorded(old(client)@, s, final(client)@.pending[s as int]),
            final(client)@.pending[s as int].presentation_feedback@ == old(client)@.pending[s as int].presentation_feedback@.push(
                feedback,
            ),
            (PendingState {
                presentation_feedback: old(client)@.pending[s as int].presentation_feedback,
                ..final(client)@.pending[s as int]
            }) == old(client)@.pending[s as int],
    {
        assert(old(client)@.pending[s as int].wf());
        let pending = &mut client.pending[s];
        pending.record_presentation_feedback(feedback);
        proof {
            assert(client@.pending =~= old(client)@.pending.update(
                s as int,
                client@.pending[s as int],
            ));
            lemma_recorded_wf(old(client)@, s, client@.pending[s as int]);
        }
    }

    pub fn set_opaque_region(client: &mut Client, s: usize, region: Option<Region>)
        requires
            old(client).wf(),
            s < old(client)@.surfaces.len(),
        ensures
            final(client).wf(),
            final(client)@ == recorded(
                old(client)@,
                s,
                PendingState { opaque_region: Some(region), ..old(client)@.pending[s as int] },
            ),
    {
        assert(old(client)@.pending[s as int].wf());
        let pending = &mut client.pending[s];
        pending.record_region_set(RegionKind::Opaque, region);
        proof {
            lemma_recorded_wf(old(client)@, s, client@.pending[s as int]);
        }
    }

    pub fn set_input_region(client: &mut Client, s: usize, region: Option<Region>)
        requires
            old(client).wf(),
            s < old(client)@.surfaces.len(),
        ensures
            final(client).wf(),
            final(client)@ == recorded(
                old(client)@,
                s,
                PendingState { input_region: Some(region), ..old(client)@.pending[s as int] },
            ),
    {
        assert(old(client)@.pending[s as int].wf());
        let pending = &mut client.pending[s];
        pending.record_region_set(RegionKind::Input, region);
        proof {
            lemma_recorded_wf(old(client)@, s, client@.pending[s as int]);
        }
    }

    /// The transform with the wire number `transform` holds from the next commit
    /// on; a number that names no transform is refused.
    pub fn set_buffer_transform(client: &mut Client, s: usize, transform: i32) -> (r: Result<
        (),
        WlSurfaceError,
    >)
        requires
            old(client).wf(),
            s < old(client)@.surfaces.len(),
        ensures
            final(client).wf(),
            r.is_ok() <==> 0 <= transform <= 7,
            r.is_err() ==> r == Err::<(), WlSurfaceError>(
                WlSurfaceError::UnknownBufferTransform(transform),
            ) && final(client)@ == old(client)@,
            r.is_ok() ==> final(client)@.pending[s as int].transform is Some
                && final(client)@.pending[s as int].transform->0.spec_to_wl() == transform
                && final(client)@ == recorded(
                old(client)@,
                s,
                PendingState {
                    transform: final(client)@.pending[s as int].transform,
                    ..old(client)@.pending[s as int]
                },
            ),
    {
        let tf = match Transform::from_wl(transform) {
            Some(tf) => tf,
            None => {
                return Err(WlSurfaceError::UnknownBufferTransform(transform));
            },
        };
        assert(old(client)@.pending[s as int].wf());
        let pending = &mut client.pending[s];
        pending.record_transform(tf);
        proof {
            lemma_recorded_wf(old(client)@, s, client@.pending[s as int]);
        }
        Ok(())
    }

    /// The scale holds from the next commit on; a scale below 1 is refused.
    pub fn set_buffer_scale(client: &mut Client, s: usize, scale: i32) -> (r: Result<
        (),
        WlSurfaceError,
    >)
        requires
            old(client).wf(),
            s < old(client)@.surfaces.len(),
        ensures
            final(client).wf(),
            r.is_ok() <==> scale >= 1,
            r.is_err() ==> r == Err::<(), WlSurfaceError>(WlSurfaceError::NonPositiveBufferScale)
                && final(client)@ == old(client)@,
            r.is_ok() ==> final(client)@ == recorded(
                old(client)@,
                s,
                PendingState { scale: Some(scale), ..old(client)@.pending[s as int] },
            ),
    {
        if scale < 1 {
            return Err(WlSurfaceError::NonPositiveBufferScale);
        }
        assert(old(client)@.pending[s as int].wf());
        let pending = &mut client.pending[s];
        pending.record_scale(scale);
        proof {
            lemma_recorded_wf(old(client)@, s, client@.pending[s as int]);
        }
        Ok(())
    }

    /// The content moves by `(x, y)` with the next buffer, on top of what was asked
    /// for before in this cycle.
    pub fn offset(client: &mut Client, s: usize, x: i32, y: i32)
        requires
            old(client).wf(),
            s < old(client)@.surfaces.len(),
        ensures
            final(client).wf(),
            final(client)@ == recorded(
                old(client)@,
                s,
                PendingState {
                    offset: (
                        wrapping_sum(old(client)@.pending[s as int].offset.0, x),
                        wrapping_sum(old(client)@.pending[s as int].offset.1, y),
                    ),
                    ..old(client)@.pending[s as int]
                },
            ),
    {
        assert(old(client)@.pending[s as int].wf());
        let pending = &mut client.pending[s];
        pending.record_offset(x, y);
        proof {
            lemma_recorded_wf(old(client)@, s, client@.pending[s as int]);
        }
    }

    pub fn set_content_type(client: &mut Client, s: usize, content_type: Option<ContentType>)
        requires
            old(client).wf(),
            s < old(client)@.surfaces.len(),
        ensures
            final(client).wf(),
            final(client)@ == recorded(
                old(client)@,
                s,
                PendingState { content_type: Some(content_type), ..old(client)@.pending[s as int] },
            ),
    {
        assert(old(client)@.pending[s as int].wf());
        let pending = &mut client.pending[s];
        pending.record_content_type(content_type);
        proof {
            lemma_recorded_wf(old(client)@, s, client@.pending[s as int]);
        }
    }

    /// Asks the role object whether a commit goes on. The commit of a synchronized
    /// subsurface goes to the accumulator of its parent instead.
    pub fn commit_requested(client: &mut Client, s: usize) -> (r: CommitAction)
        requires
            old(client).wf(),
            s < old(client)@.surfaces.len(),
        ensures
            final(client).wf(),
            match synchronized_parent(old(client)@, s) {
                Some(parent) => r == CommitAction::AbortCommit && handed_to_parent(
                    old(client)@,
                    s,
                    parent,
                    old(client)@.pending[s as int],
                    final(client)@,
                ),
                None => r == CommitAction::ContinueCommit && final(client)@ == old(client)@,
            },
    {
        match client.surfaces[s].ext {
            SurfaceExt::Subsurface(sub) => {
                if sub.sync() && sub.parent != s && sub.parent < client.surfaces.len() {
                    WlSurface::hand_to_parent(client, s, sub.parent, sub.unique_id);
                    CommitAction::AbortCommit
                } else {
                    CommitAction::ContinueCommit
                }
            },
            SurfaceExt::Absent(e) => e.commit_requested(),
            SurfaceExt::Other => CommitAction::ContinueCommit,
        }
    }

    /// Moves what the child at `s` has accumulated into the accumulator of its parent.
    pub fn hand_to_parent(client: &mut Client, s: usize, parent: usize, id: u64)
        requires
            old(client).wf(),
            s < old(client)@.surfaces.len(),
            synchronized_parent(old(client)@, s) == Some(parent),
            old(client)@.surfaces[s as int].ext->Subsurface_0.unique_id == id,
        ensures
            final(client).wf(),
            handed_to_parent(
                old(client)@,
                s,
                parent,
                old(client)@.pending[s as int],
                final(client)@,
            ),
    {
        let ghost sc = client@;
        assert(sc.pending[s as int].wf());
        assert(sc.pending[parent as int].wf());
        let pending = &mut client.pending[s];
        let mut p = pending.take();
        let ghost mid = client@;
        let parent_pending = &mut client.pending[parent];
        let ghost kids = parent_pending.subsurfaces@;
        match find_child(&parent_pending.subsurfaces, id) {
            Some(j) => {
                let entry = &mut parent_pending.subsurfaces[j];
                entry.state.merge(&mut p, &client.live_buffers, &mut client.events);
                proof {
                    let jc = choose|jc: int| 0 <= jc < kids.len() && (#[trigger] kids[jc]).id == id;
                    assert(jc == j) by {
                        if jc < j {
                            assert(kids[jc].id != kids[j as int].id);
                        } else if jc > j {
                            assert(kids[j as int].id != kids[jc].id);
                        }
                    }
                    let now = client@.pending[parent as int];
                    assert(crate::ifs::wl_surface::pending::distinct_children(now.subsurfaces@)) by {
                        assert forall|a: int, b: int| 0 <= a < b < now.subsurfaces@.len() implies (
                        #[trigger] now.subsurfaces@[a]).id != (#[trigger] now.subsurfaces@[b]).id by {
                            assert(kids[a].id != kids[b].id);
                        }
                    }
                    assert(now.wf()) by {
                        assert forall|i: int| 0 <= i < now.subsurfaces@.len() implies (
                        #[trigger] now.subsurfaces@[i]).state.wf() by {
                            if i != j {
                                assert(kids[i].state.wf());
                            }
                        }
                    }
                }
            },
            None => {
                parent_pending.subsurfaces.push(CommittedSubsurface { id, surface: s, state: p });
                proof {
                    let now = client@.pending[parent as int];
                    assert(crate::ifs::wl_surface::pending::distinct_children(now.subsurfaces@)) by {
                        assert forall|a: int, b: int| 0 <= a < b < now.subsurfaces@.len() implies (
                        #[trigger] now.subsurfaces@[a]).id != (#[trigger] now.subsurfaces@[b]).id by {
                            if b < kids.len() {
                                assert(kids[a].id != kids[b].id);
                            } else {
                                assert(kids[a].id != id);
                            }
                        }
                    }
                    assert(now.wf()) by {
                        assert forall|i: int| 0 <= i < now.subsurfaces@.len() implies (
                        #[trigger] now.subsurfaces@[i]).state.wf() by {
                            if i < kids.len() {
                                assert(kids[i].state.wf());
                            }
                        }
                    }
                }
            },
        }
        proof {
            assert forall|i: int| 0 <= i < client@.pending.len() implies (
            #[trigger] client@.pending[i]).wf() by {
                if i != s && i != parent {
                    assert(sc.pending[i].wf());
                }
            }
        }
    }

    /// The commit request: what has accumulated since the last commit takes effect,
    /// now or later, or is refused.
    pub fn commit(client: &mut Client, s: usize) -> (r: Result<(), WlSurfaceError>)
        requires
            old(client).wf(),
            s < old(client)@.surfaces.len(),
        ensures
            final(client).wf(),
            committed(old(client)@, s, final(client)@, r),
    {
        let explicit_sync = client.surfaces[s].sync_obj_surface;
        assert(old(client)@.pending[s as int].wf());
        let pending = &mut client.pending[s];
        let verdict = WlSurface::check_explicit_sync(explicit_sync, pending);
        proof {
            lemma_recorded_wf(old(client)@, s, client@.pending[s as int]);
        }
        match verdict {
            Err(e) => {
                return Err(e);
            },
            Ok(()) => {},
        }
        let ghost noted = client@;
        assert(synchronized_parent(noted, s) == synchronized_parent(old(client)@, s));
        match WlSurface::commit_requested(client, s) {
            CommitAction::AbortCommit => {
                proof {
                    let parent = synchronized_parent(noted, s)->0;
                    lemma_handed_from(old(client)@, noted, s, parent, client@);
                }
                Ok(())
            },
            CommitAction::ContinueCommit => {
                let r = CommitTimeline::commit(client, s);
                proof {
                    if !noted.commit_timelines[s as int].awaiting()
                        && noted.pending[s as int].acquire_point is None {
                        assert((Scene { pending: client@.pending, ..noted }) == (Scene {
                            pending: client@.pending,
                            ..old(client)@
                        }));
                        assert(noted.pending[s as int] == (PendingState {
                            explicit_sync: old(client)@.surfaces[s as int].sync_obj_surface,
                            ..old(client)@.pending[s as int]
                        }));
                    }
                    lemma_emptied_from(old(client)@.pending, noted.pending, s, client@.pending);
                }
                r
            },
        }
    }
}

/// Replacing the accumulator of a surface by one with sound values keeps the client sound.
pub proof fn lemma_recorded_wf(sc: Scene, s: usize, p: PendingState)
    requires
        sc.wf(),
        s < sc.surfaces.len(),
        p.wf(),
    ensures
        recorded(sc, s, p).wf(),
{
    let after = recorded(sc, s, p);
    assert forall|i: int| 0 <= i < after.pending.len() implies (#[trigger] after.pending[i]).wf() by {
        if i != s {
            assert(sc.pending[i].wf());
        }
    }
    assert forall|i: int| 0 <= i < after.surfaces.len() implies (#[trigger] after.surfaces[i]).wf() by {
        assert(sc.surfaces[i].wf());
    }
    assert forall|i: int| 0 <= i < after.commit_timelines.len() implies (
    #[trigger] after.commit_timelines[i]).wf() by {
        assert(sc.commit_timelines[i].wf());
    }
}

proof fn lemma_emptied_from(
    before: Seq<PendingState>,
    noted: Seq<PendingState>,
    s: usize,
    after: Seq<PendingState>,
)
    requires
        s < before.len(),
        noted == before.update(s as int, noted[s as int]),
    ensures
        crate::ifs::wl_surface::commit_timeline::emptied(noted, s, after)
            ==> crate::ifs::wl_surface::commit_timeline::emptied(before, s, after),
{
    if crate::ifs::wl_surface::commit_timeline::emptied(noted, s, after) {
        assert forall|i: int| 0 <= i < before.len() && i != s implies #[trigger] after[i]
            == before[i] by {
            assert(after[i] == noted[i]);
        }
    }
}

proof fn lemma_handed_from(before: Scene, noted: Scene, s: usize, parent: usize, after: Scene)
    requires
        s < before.surfaces.len(),
        before.pending.len() == before.surfaces.len(),
        parent != s,
        parent < before.surfaces.len(),
        noted == (Scene { pending: before.pending.update(s as int, noted.pending[s as int]), ..before }),
        handed_to_parent(noted, s, parent, noted.pending[s as int], after),
    ensures
        handed_to_parent(before, s, parent, noted.pending[s as int], after),
{
    assert(noted.pending[parent as int] == before.pending[parent as int]);
    assert forall|i: int|
        0 <= i < before.pending.len() && i != s && i != parent implies #[trigger] after.pending[i]
        == before.pending[i] by {
        assert(after.pending[i] == noted.pending[i]);
    }
}

/// Those of the first `n` cursors that show other surfaces.
pub open spec fn cursors_without(all: Seq<CursorSurface>, s: usize, n: int) -> Seq<CursorSurface>
    decreases n,
{
    if n <= 0 || n > all.len() {
        seq![]
    } else if all[n - 1].surface == s {
        cursors_without(all, s, n - 1)
    } else {
        cursors_without(all, s, n - 1).push(all[n - 1])
    }
}

/// The surfaces after the children of the surface at `s` lost their role objects.
pub open spec fn orphaned(surfaces: Seq<WlSurface>, s: usize) -> Seq<WlSurface> {
    Seq::new(
        surfaces.len(),
        |i: int|
            if is_child_of(surfaces, i, s) {
                WlSurface { ext: SurfaceExt::Absent(NoneSurfaceExt), ..surfaces[i] }
            } else {
                surfaces[i]
            },
    )
}

/// The scene after the surface at `s` gave up what waits on it: the commit that
/// waits for its fence, and its uses as a cursor.
pub open spec fn destroy_begun(sc: Scene, s: usize) -> Scene {
    Scene {
        commit_timelines: sc.commit_timelines.update(s as int, CommitTimeline { gated: None }),
        events: sc.events + (match sc.commit_timelines[s as int].gated {
            Some(p) => discard_events(p, sc.live_buffers),
            None => seq![],
        }),
        cursors: cursors_without(sc.cursors, s, sc.cursors.len() as int),
        ..sc
    }
}

/// The scene after the surface at `s` and what is below it went out of sight and
/// its children stand alone.
pub open spec fn destroy_detached(sc: Scene, s: usize) -> Scene {
    let hidden = visibility_set(sc, s, false, MAX_SUBSURFACE_DEPTH as nat);
    Scene {
        events: if sc.surfaces[s as int].visible {
            hidden.events.push(Event::Damage)
        } else {
            hidden.events
        },
        surfaces: orphaned(hidden.surfaces, s),
        ..hidden
    }
}

/// The scene after the surface at `s` gave back its buffer, left the index of
/// serials, dropped its callbacks and was marked destroyed.
pub open spec fn destroy_finished(sc: Scene, s: usize) -> Scene {
    let released = buffer_released(sc, s);
    let old = sc.surfaces[s as int];
    Scene {
        surfaces: sc.surfaces.update(s as int, WlSurface { buffer: None, destroyed: true, ..old }),
        serials: match old.xwayland_serial {
            Some(serial) => sc.serials.remove(serial),
            None => sc.serials,
        },
        frame_requests: frame_requests_without(
            sc.frame_requests,
            s,
            sc.frame_requests.len() as int,
        ),
        ..released
    }
}

/// What the destruction of a surface leads to: a surface with a role object cannot
/// go, but has given up what waited on it by then.
pub open spec fn destroyed(sc: Scene, s: usize) -> (Scene, Option<WlSurfaceError>) {
    let begun = destroy_begun(sc, s);
    if sc.surfaces[s as int].ext.spec_is_some() {
        (begun, Some(WlSurfaceError::ReloObjectStillExists))
    } else {
        (destroy_finished(destroy_detached(begun, s), s), None)
    }
}

impl Client {
    /// Ends the uses of the surface as a cursor.
    pub fn unset_cursors(&mut self, s: usize)
        ensures
            final(self)@ == (Scene {
                cursors: cursors_without(old(self)@.cursors, s, old(self)@.cursors.len() as int),
                ..old(self)@
            }),
    {
        let mut kept: Vec<CursorSurface> = Vec::new();
        let mut i: usize = 0;
        while i < self.cursors.len()
            invariant
                0 <= i <= self.cursors.len(),
                self@ == old(self)@,
                kept@ == cursors_without(self.cursors@, s, i as int),
            decreases self.cursors.len() - i,
        {
            let c = self.cursors[i];
            if c.surface != s {
                kept.push(c);
            }
            i += 1;
        }
        self.cursors = kept;
    }

    /// Drops the callbacks that wait to fire for the surface.
    pub fn clear_frame_requests(&mut self, s: usize)
        ensures
            final(self)@ == (Scene {
                frame_requests: frame_requests_without(
                    old(self)@.frame_requests,
                    s,
                    old(self)@.frame_requests.len() as int,
                ),
                ..old(self)@
            }),
    {
        let mut kept: Vec<FrameRequest> = Vec::new();
        let mut i: usize = 0;
        while i < self.frame_requests.len()
            invariant
                0 <= i <= self.frame_requests.len(),
                self@ == old(self)@,
                kept@ == frame_requests_without(self.frame_requests@, s, i as int),
            decreases self.frame_requests.len() - i,
        {
            let f = self.frame_requests[i];
            if f.surface != s {
                kept.push(f);
            }
            i += 1;
        }
        self.frame_requests = kept;
    }

    /// Takes the role objects from the children of the surface.
    pub fn unset_children_ext(&mut self, s: usize)
        ensures
            final(self)@ == (Scene { surfaces: orphaned(old(self)@.surfaces, s), ..old(self)@ }),
            old(self).wf() ==> final(self).wf(),
    {
        let n = self.surfaces.len();
        let mut i: usize = 0;
        while i < n
            invariant
                0 <= i <= n,
                n == self.surfaces@.len(),
                n == old(self).surfaces@.len(),
                self@ == (Scene { surfaces: self.surfaces@, ..old(self)@ }),
                forall|j: int| 0 <= j < i ==> self.surfaces@[j] == orphaned(old(self).surfaces@, s)[j],
                forall|j: int| i <= j < n ==> self.surfaces@[j] == old(self).surfaces@[j],
            decreases n - i,
        {
            if i != s {
                match self.surfaces[i].ext {
                    SurfaceExt::Subsurface(sub) => {
                        if sub.parent == s {
                            let surface = &mut self.surfaces[i];
                            surface.ext = SurfaceExt::Absent(NoneSurfaceExt);
                        }
                    },
                    _ => {},
                }
            }
            i += 1;
        }
        proof {
            assert(self.surfaces@ =~= orphaned(old(self).surfaces@, s));
            if old(self).wf() {
                assert forall|j: int| 0 <= j < self@.surfaces.len() implies (
                #[trigger] self@.surfaces[j]).wf() by {
                    assert(old(self)@.surfaces[j].wf());
                }
            }
        }
    }
}

impl WlSurface {
    /// Destroys the surface. A surface that still has its role object stays.
    pub fn destroy(client: &mut Client, s: usize) -> (r: Result<(), WlSurfaceError>)
        requires
            old(client).wf(),
            s < old(client)@.surfaces.len(),
        ensures
            final(client).wf(),
            final(client)@ == destroyed(old(client)@, s).0,
            match destroyed(old(client)@, s).1 {
                Some(e) => r == Err::<(), WlSurfaceError>(e),
                None => r.is_ok(),
            },
    {
        CommitTimeline::clear(client, s, ClearReason::Destroy);
        client.unset_cursors(s);
        match client.surfaces[s].ext.on_surface_destroy() {
            Err(e) => {
                return Err(e);
            },
            Ok(()) => {},
        }
        WlSurface::destroy_node(client, s);
        client.unset_children_ext(s);
        WlSurface::finish_destroy(client, s);
        Ok(())
    }

    /// Takes the surface at `s` out of the tree of what is shown: what is on screen
    /// has to be drawn again if the surface was visible, and the surface and what
    /// is below it go out of sight if `set_invisible` says so.
    pub fn detach_node(client: &mut Client, s: usize, set_invisible: bool)
        requires
            s < old(client)@.surfaces.len(),
        ensures
            set_invisible ==> final(client)@ == (Scene {
                events: if old(client)@.surfaces[s as int].visible {
                    visibility_set(old(client)@, s, false, MAX_SUBSURFACE_DEPTH as nat).events.push(
                        Event::Damage,
                    )
                } else {
                    visibility_set(old(client)@, s, false, MAX_SUBSURFACE_DEPTH as nat).events
                },
                ..visibility_set(old(client)@, s, false, MAX_SUBSURFACE_DEPTH as nat)
            }),
            !set_invisible ==> final(client)@ == (Scene {
                events: if old(client)@.surfaces[s as int].visible {
                    old(client)@.events.push(Event::Damage)
                } else {
                    old(client)@.events
                },
                ..old(client)@
            }),
            final(client)@.surfaces.len() == old(client)@.surfaces.len(),
            old(client).wf() ==> final(client).wf(),
    {
        if set_invisible {
            WlSurface::destroy_node(client, s);
        } else if client.surfaces[s].visible {
            client.events.push(Event::Damage);
        }
    }

    /// Takes the surface and what is below it out of sight.
    pub fn destroy_node(client: &mut Client, s: usize)
        requires
            s < old(client)@.surfaces.len(),
        ensures
            final(client)@ == (Scene {
                events: if old(client)@.surfaces[s as int].visible {
                    visibility_set(old(client)@, s, false, MAX_SUBSURFACE_DEPTH as nat).events.push(
                        Event::Damage,
                    )
                } else {
                    visibility_set(old(client)@, s, false, MAX_SUBSURFACE_DEPTH as nat).events
                },
                ..visibility_set(old(client)@, s, false, MAX_SUBSURFACE_DEPTH as nat)
            }),
            final(client)@.surfaces.len() == old(client)@.surfaces.len(),
            old(client).wf() ==> final(client).wf(),
    {
        let visible = client.surfaces[s].visible;
        set_visible_upto(client, s, false, MAX_SUBSURFACE_DEPTH);
        if visible {
            client.events.push(Event::Damage);
        }
    }

    /// Gives back the buffer of the surface, takes the surface out of the index of
    /// serials, drops its callbacks and marks it destroyed.
    pub fn finish_destroy(client: &mut Client, s: usize)
        requires
            s < old(client)@.surfaces.len(),
        ensures
            final(client)@ == destroy_finished(old(client)@, s),
            old(client).wf() ==> final(client).wf(),
    {
        client.release_buffer(s);
        match client.surfaces[s].xwayland_serial {
            Some(serial) => {
                let _ = client.surfaces_by_xwayland_serial.remove(serial);
            },
            None => {},
        }
        client.clear_frame_requests(s);
        let surface = &mut client.surfaces[s];
        surface.buffer = None;
        surface.destroyed = true;
        proof {
            if old(client).wf() {
                assert forall|j: int| 0 <= j < client@.surfaces.len() implies (
                #[trigger] client@.surfaces[j]).wf() by {
                    assert(old(client)@.surfaces[j].wf());
                }
            }
        }
    }
}

/// What a request that the version of the surface has leads to.
pub open spec fn request_handled(
    sc: Scene,
    s: usize,
    request: Request,
    after: Scene,
    r: Result<(), WlSurfaceError>,
) -> bool {
    let p = sc.pending[s as int];
    match request {
        Request::Commit => committed(sc, s, after, r),
        Request::Damage | Request::DamageBuffer => r.is_ok() && after == recorded(
            sc,
            s,
            PendingState { damage: true, ..p },
        ),
        Request::Offset { x, y } => r.is_ok() && after == recorded(
            sc,
            s,
            PendingState {
                offset: (wrapping_sum(p.offset.0, x), wrapping_sum(p.offset.1, y)),
                ..p
            },
        ),
        Request::SetBufferScale { scale } => if scale >= 1 {
            r.is_ok() && after == recorded(sc, s, PendingState { scale: Some(scale), ..p })
        } else {
            r == Err::<(), WlSurfaceError>(WlSurfaceError::NonPositiveBufferScale) && after == sc
        },
        Request::SetBufferTransform { transform } => if 0 <= transform <= 7 {
            &&& r.is_ok()
            &&& after.pending[s as int].transform is Some
            &&& after.pending[s as int].transform->0.spec_to_wl() == transform
            &&& after == recorded(
                sc,
                s,
                PendingState { transform: after.pending[s as int].transform, ..p },
            )
        } else {
            r == Err::<(), WlSurfaceError>(WlSurfaceError::UnknownBufferTransform(transform))
                && after == sc
        },
        Request::Attach { buffer, x, y } => if sc.surfaces[s as int].version >= OFFSET_SINCE && (x
            != 0 || y != 0) {
            r == Err::<(), WlSurfaceError>(WlSurfaceError::OffsetInAttach) && after == sc
        } else {
            r.is_ok() && after == recorded(
                sc,
                s,
                PendingState {
                    buffer: Some(buffer),
                    offset: if sc.surfaces[s as int].version >= OFFSET_SINCE {
                        p.offset
                    } else {
                        (wrapping_sum(p.offset.0, x), wrapping_sum(p.offset.1, y))
                    },
                    ..p
                },
            )
        },
        Request::SetOpaqueRegion { region } => r.is_ok() && after == recorded(
            sc,
            s,
            PendingState { opaque_region: Some(region), ..p },
        ),
        Request::SetInputRegion { region } => r.is_ok() && after == recorded(
            sc,
            s,
            PendingState { input_region: Some(region), ..p },
        ),
        Request::Frame { callback } => {
            &&& r.is_ok()
            &&& after == recorded(sc, s, after.pending[s as int])
            &&& after.pending[s as int].frame_request@ == p.frame_request@.push(callback)
            &&& (PendingState { frame_request: p.frame_request, ..after.pending[s as int] }) == p
        },
    }
}

impl WlSurface {
    /// Carries out a request of a client to the surface at `s`. A request that the
    /// version of the surface does not have is refused.
    pub fn handle_request(client: &mut Client, s: usize, request: Request) -> (r: Result<
        (),
        WlSurfaceError,
    >)
        requires
            old(client).wf(),
            s < old(client)@.surfaces.len(),
            request matches Request::Attach { buffer: Some(b), .. } ==> b.wf(),
        ensures
            final(client).wf(),
            request.spec_since() > old(client)@.surfaces[s as int].version ==> r == Err::<
                (),
                WlSurfaceError,
            >(WlSurfaceError::ClientError(crate::client::ClientError::InvalidMethod))
                && final(client)@ == old(client)@,
            request.spec_since() <= old(client)@.surfaces[s as int].version ==> request_handled(
                old(client)@,
                s,
                request,
                final(client)@,
                r,
            ),
    {
        if request.since() > client.surfaces[s].version {
            return Err(WlSurfaceError::ClientError(crate::client::ClientError::InvalidMethod));
        }
        match request {
            Request::Attach { buffer, x, y } => WlSurface::attach(client, s, buffer, x, y),
            Request::Damage => {
                WlSurface::damage(client, s);
                Ok(())
            },
            Request::Frame { callback } => {
                WlSurface::frame(client, s, callback);
                Ok(())
            },
            Request::SetOpaqueRegion { region } => {
                WlSurface::set_opaque_region(client, s, region);
                Ok(())
            },
            Request::SetInputRegion { region } => {
                WlSurface::set_input_region(client, s, region);
                Ok(())
            },
            Request::Commit => WlSurface::commit(client, s),
            Request::SetBufferTransform { transform } => WlSurface::set_buffer_transform(
                client,
                s,
                transform,
            ),
            Request::SetBufferScale { scale } => WlSurface::set_buffer_scale(client, s, scale),
            Request::DamageBuffer => {
                WlSurface::damage_buffer(client, s);
                Ok(())
            },
            Request::Offset { x, y } => {
                WlSurface::offset(client, s, x, y);
                Ok(())
            },
        }
    }
}

/// Those of the first `n` icons that are not the icon of the seat on the surface.
pub open spec fn dnd_icons_without(all: Seq<DndIcon>, s: usize, seat: u32, n: int) -> Seq<DndIcon>
    decreases n,
{
    if n <= 0 || n > all.len() {
        seq![]
    } else if all[n - 1].surface == s && all[n - 1].seat == seat {
        dnd_icons_without(all, s, seat, n - 1)
    } else {
        dnd_icons_without(all, s, seat, n - 1).push(all[n - 1])
    }
}

/// Whether one of the first `n` icons is on the surface.
pub open spec fn is_dnd_icon(all: Seq<DndIcon>, s: usize, n: int) -> bool
    decreases n,
{
    if n <= 0 || n > all.len() {
        false
    } else {
        all[n - 1].surface == s || is_dnd_icon(all, s, n - 1)
    }
}

/// The icons after a seat took the surface at `s` as its icon or gave it up.
pub open spec fn dnd_icons_set(all: Seq<DndIcon>, s: usize, seat: u32, present: bool) -> Seq<DndIcon> {
    let rest = dnd_icons_without(all, s, seat, all.len() as int);
    if present {
        rest.push(DndIcon { surface: s, seat })
    } else {
        rest
    }
}

/// Those of the first `n` surfaces that are children of the surface at `s`.
pub open spec fn children_of(surfaces: Seq<WlSurface>, s: usize, n: int) -> Seq<usize>
    decreases n,
{
    if n <= 0 || n > surfaces.len() {
        seq![]
    } else if is_child_of(surfaces, n - 1, s) {
        children_of(surfaces, s, n - 1).push((n - 1) as usize)
    } else {
        children_of(surfaces, s, n - 1)
    }
}

/// What was found under a point: a surface, and the point relative to it.
#[derive(Copy, Clone, Debug, PartialEq, Eq, Structural)]
pub struct FoundNode {
    pub node: usize,
    pub x: i32,
    pub y: i32,
}

#[derive(Copy, Clone, Debug, PartialEq, Eq, Structural)]
pub enum FindTreeResult {
    AcceptsInput,
    Other,
}

/// The scene after every tie of the surface at `s` to other objects was cut: its
/// uses as an icon and as a cursor, its visibility, its children, its role object,
/// its callbacks, its buffer, its feedback objects, and the commit that waits.
pub open spec fn loops_broken(sc: Scene, s: usize) -> Scene {
    let uncursored = Scene {
        dnd_icons: dnd_icons_of_others(sc.dnd_icons, s, sc.dnd_icons.len() as int),
        cursors: cursors_without(sc.cursors, s, sc.cursors.len() as int),
        ..sc
    };
    let detached = destroy_detached(uncursored, s);
    let released = buffer_released(detached, s);
    let old = detached.surfaces[s as int];
    let n = detached.presentation_feedback.len() as int;
    Scene {
        surfaces: detached.surfaces.update(
            s as int,
            WlSurface { buffer: None, ext: SurfaceExt::Absent(NoneSurfaceExt), ..old },
        ),
        frame_requests: frame_requests_without(
            detached.frame_requests,
            s,
            detached.frame_requests.len() as int,
        ),
        presentation_feedback: crate::ifs::wl_surface::apply::feedback_without(
            detached.presentation_feedback,
            s,
            n,
        ),
        commit_timelines: detached.commit_timelines.update(s as int, CommitTimeline { gated: None }),
        events: released.events + (match detached.commit_timelines[s as int].gated {
            Some(p) => discard_events(p, detached.live_buffers),
            None => seq![],
        }),
        ..released
    }
}

/// Those of the first `n` icons that are on other surfaces.
pub open spec fn dnd_icons_of_others(all: Seq<DndIcon>, s: usize, n: int) -> Seq<DndIcon>
    decreases n,
{
    if n <= 0 || n > all.len() {
        seq![]
    } else if all[n - 1].surface == s {
        dnd_icons_of_others(all, s, n - 1)
    } else {
        dnd_icons_of_others(all, s, n - 1).push(all[n - 1])
    }
}

impl Client {
    /// Ends the uses of the surface as an icon.
    pub fn unset_dnd_icons(&mut self, s: usize)
        ensures
            final(self)@ == (Scene {
                dnd_icons: dnd_icons_of_others(
                    old(self)@.dnd_icons,
                    s,
                    old(self)@.dnd_icons.len() as int,
                ),
                ..old(self)@
            }),
    {
        let mut kept: Vec<DndIcon> = Vec::new();
        let mut i: usize = 0;
        while i < self.dnd_icons.len()
            invariant
                0 <= i <= self.dnd_icons.len(),
                self@ == old(self)@,
                kept@ == dnd_icons_of_others(self.dnd_icons@, s, i as int),
            decreases self.dnd_icons.len() - i,
        {
            let d = self.dnd_icons[i];
            if d.surface != s {
                kept.push(d);
            }
            i += 1;
        }
        self.dnd_icons = kept;
    }

    /// Drops the feedback objects that wait for the surface, without a word to the client.
    pub fn clear_feedback(&mut self, s: usize)
        ensures
            final(self)@ == (Scene {
                presentation_feedback: crate::ifs::wl_surface::apply::feedback_without(
                    old(self)@.presentation_feedback,
                    s,
                    old(self)@.presentation_feedback.len() as int,
                ),
                ..old(self)@
            }),
    {
        let mut kept: Vec<crate::client::PresentationFeedback> = Vec::new();
        let mut i: usize = 0;
        while i < self.presentation_feedback.len()
            invariant
                0 <= i <= self.presentation_feedback.len(),
                self@ == old(self)@,
                kept@ == crate::ifs::wl_surface::apply::feedback_without(
                    self.presentation_feedback@,
                    s,
                    i as int,
                ),
            decreases self.presentation_feedback.len() - i,
        {
            let f = self.presentation_feedback[i];
            if f.surface != s {
                kept.push(f);
            }
            i += 1;
        }
        self.presentation_feedback = kept;
    }

    /// Notes that a seat took the surface at `s` as its icon, or gave it up; says
    /// whether a seat uses the surface as its icon then.
    pub fn note_dnd_icon(&mut self, s: usize, seat: u32, present: bool) -> (r: bool)
        ensures
            final(self)@ == (Scene {
                dnd_icons: dnd_icons_set(old(self)@.dnd_icons, s, seat, present),
                ..old(self)@
            }),
            r == is_dnd_icon(final(self)@.dnd_icons, s, final(self)@.dnd_icons.len() as int),
    {
        let mut kept: Vec<DndIcon> = Vec::new();
        let mut any = false;
        let mut i: usize = 0;
        while i < self.dnd_icons.len()
            invariant
                0 <= i <= self.dnd_icons.len(),
                self@ == old(self)@,
                kept@ == dnd_icons_without(self.dnd_icons@, s, seat, i as int),
                any == is_dnd_icon(kept@, s, kept@.len() as int),
            decreases self.dnd_icons.len() - i,
        {
            let d = self.dnd_icons[i];
            if !(d.surface == s && d.seat == seat) {
                let ghost before = kept@;
                kept.push(d);
                proof {
                    lemma_is_dnd_icon_push(before, d, s);
                }
                if d.surface == s {
                    any = true;
                }
            }
            i += 1;
        }
        if present {
            let ghost before = kept@;
            kept.push(DndIcon { surface: s, seat });
            proof {
                lemma_is_dnd_icon_push(before, DndIcon { surface: s, seat }, s);
            }
            any = true;
        }
        self.dnd_icons = kept;
        any
    }
}

pub proof fn lemma_is_dnd_icon_push(all: Seq<DndIcon>, d: DndIcon, s: usize)
    ensures
        is_dnd_icon(all.push(d), s, all.len() as int + 1) == (d.surface == s || is_dnd_icon(
            all,
            s,
            all.len() as int,
        )),
{
    lemma_is_dnd_icon_prefix(all, all.push(d), s, all.len() as int);
}

pub proof fn lemma_is_dnd_icon_prefix(a: Seq<DndIcon>, b: Seq<DndIcon>, s: usize, n: int)
    requires
        0 <= n <= a.len(),
        n <= b.len(),
        forall|i: int| 0 <= i < n ==> a[i] == b[i],
    ensures
        is_dnd_icon(a, s, n) == is_dnd_icon(b, s, n),
    decreases n,
{
    if n > 0 {
        lemma_is_dnd_icon_prefix(a, b, s, n - 1);
    }
}

impl WlSurface {
    /// A seat takes the surface at `s` as the icon that it drags along, or gives it
    /// up. The surface is visible while a seat uses it as its icon and the root of
    /// what is shown is visible.
    pub fn set_dnd_icon_seat(client: &mut Client, s: usize, seat: u32, present: bool, root_visible: bool)
        ensures
            ({
                let noted = Scene {
                    dnd_icons: dnd_icons_set(old(client)@.dnd_icons, s, seat, present),
                    ..old(client)@
                };
                final(client)@ == visibility_set(
                    noted,
                    s,
                    is_dnd_icon(noted.dnd_icons, s, noted.dnd_icons.len() as int) && root_visible,
                    MAX_SUBSURFACE_DEPTH as nat,
                )
            }),
            old(client).wf() ==> final(client).wf(),
    {
        let used = client.note_dnd_icon(s, seat, present);
        set_visible_upto(client, s, used && root_visible, MAX_SUBSURFACE_DEPTH);
    }

    /// Makes the surface a surface of the X server, unless it is one already.
    pub fn get_xsurface(client: &mut Client, s: usize) -> (r: Result<(), WlSurfaceError>)
        requires
            old(client).wf(),
            s < old(client)@.surfaces.len(),
        ensures
            final(client).wf(),
            ({
                let sc = old(client)@;
                let surface = sc.surfaces[s as int];
                if surface.role != SurfaceRole::Unassigned && surface.role != SurfaceRole::XSurface {
                    r == Err::<(), WlSurfaceError>(
                        WlSurfaceError::IncompatibleRole {
                            id: surface.id,
                            old: surface.role,
                            new: SurfaceRole::XSurface,
                        },
                    ) && final(client)@ == sc
                } else {
                    r.is_ok() && final(client)@ == (Scene {
                        surfaces: sc.surfaces.update(
                            s as int,
                            WlSurface {
                                role: SurfaceRole::XSurface,
                                ext: if surface.ext.spec_is_some() {
                                    surface.ext
                                } else {
                                    SurfaceExt::Other
                                },
                                ..surface
                            },
                        ),
                        ..sc
                    })
                }
            }),
    {
        assert(old(client)@.surfaces[s as int].wf());
        let surface = &mut client.surfaces[s];
        match surface.set_role(SurfaceRole::XSurface) {
            Err(e) => {
                assert(client@.surfaces =~= old(client)@.surfaces);
                return Err(e);
            },
            Ok(()) => {},
        }
        if surface.ext.is_none() {
            surface.ext = SurfaceExt::Other;
        }
        proof {
            assert forall|i: int| 0 <= i < client@.surfaces.len() implies (
            #[trigger] client@.surfaces[i]).wf() by {
                assert(old(client)@.surfaces[i].wf());
            }
        }
        Ok(())
    }

    /// The children of the surface at `s`, in the order of the table of surfaces.
    pub fn node_visit_children(client: &Client, s: usize) -> (r: Vec<usize>)
        ensures
            r@ == children_of(client@.surfaces, s, client@.surfaces.len() as int),
    {
        let mut out: Vec<usize> = Vec::new();
        let mut i: usize = 0;
        while i < client.surfaces.len()
            invariant
                0 <= i <= client.surfaces.len(),
                out@ == children_of(client@.surfaces, s, i as int),
            decreases client.surfaces.len() - i,
        {
            if i != s {
                match client.surfaces[i].ext {
                    SurfaceExt::Subsurface(sub) => {
                        if sub.parent == s {
                            out.push(i);
                        }
                    },
                    _ => {},
                }
            }
            i += 1;
        }
        out
    }

    /// Finds the surface under a point, given relative to the surface at `s`, and
    /// notes it in `tree`.
    pub fn find_tree_at_(client: &Client, s: usize, x: i32, y: i32, tree: &mut Vec<FoundNode>) -> (r:
        FindTreeResult)
        ensures
            match crate::ifs::wl_surface::stacking::surface_at(
                client@,
                s,
                x,
                y,
                MAX_SUBSURFACE_DEPTH as nat,
            ) {
                Some(found) => r == FindTreeResult::AcceptsInput && final(tree)@ == old(tree)@.push(
                    FoundNode { node: found.0, x: found.1, y: found.2 },
                ),
                None => r == FindTreeResult::Other && final(tree)@ == old(tree)@,
            },
    {
        match WlSurface::find_surface_at(client, s, x, y) {
            Some((node, x, y)) => {
                tree.push(FoundNode { node, x, y });
                FindTreeResult::AcceptsInput
            },
            None => FindTreeResult::Other,
        }
    }

    /// Cuts every tie of the surface at `s` to other objects, as the end of the
    /// connection asks for.
    pub fn break_loops(client: &mut Client, s: usize)
        requires
            old(client).wf(),
            s < old(client)@.surfaces.len(),
        ensures
            final(client).wf(),
            final(client)@ == (Scene {
                pending: final(client)@.pending,
                ..loops_broken(old(client)@, s)
            }),
            crate::ifs::wl_surface::commit_timeline::emptied(
                old(client)@.pending,
                s,
                final(client)@.pending,
            ),
    {
        client.unset_dnd_icons(s);
        client.unset_cursors(s);
        WlSurface::destroy_node(client, s);
        client.unset_children_ext(s);
        client.release_buffer(s);
        client.clear_frame_requests(s);
        client.clear_feedback(s);
        WlSurface::unset_ext(client, s);
        CommitTimeline::clear(client, s, ClearReason::BreakLoops);
        let ghost broken = client@;
        assert(broken.pending[s as int].wf());
        let pending = &mut client.pending[s];
        let _ = pending.take();
        proof {
            lemma_recorded_wf(broken, s, client@.pending[s as int]);
            assert(client@.pending =~= broken.pending.update(s as int, client@.pending[s as int]));
            let sc = old(client)@;
            let uncursored = Scene {
                dnd_icons: dnd_icons_of_others(sc.dnd_icons, s, sc.dnd_icons.len() as int),
                cursors: cursors_without(sc.cursors, s, sc.cursors.len() as int),
                ..sc
            };
            crate::ifs::wl_surface::apply::lemma_visibility_keeps_queues(
                uncursored,
                s,
                false,
                MAX_SUBSURFACE_DEPTH as nat,
            );
            assert(broken.pending == sc.pending);
        }
    }

    /// Takes the role object and the buffer from the surface at `s`.
    pub fn unset_ext(client: &mut Client, s: usize)
        requires
            s < old(client)@.surfaces.len(),
        ensures
            final(client)@ == (Scene {
                surfaces: old(client)@.surfaces.update(
                    s as int,
                    WlSurface {
                        buffer: None,
                        ext: SurfaceExt::Absent(NoneSurfaceExt),
                        ..old(client)@.surfaces[s as int]
                    },
                ),
                ..old(client)@
            }),
            old(client).wf() ==> final(client).wf(),
    {
        let surface = &mut client.surfaces[s];
        surface.buffer = None;
        surface.ext = SurfaceExt::Absent(NoneSurfaceExt);
        proof {
            if old(client).wf() {
                assert forall|i: int| 0 <= i < client@.surfaces.len() implies (
                #[trigger] client@.surfaces[i]).wf() by {
                    assert(old(client)@.surfaces[i].wf());
                }
            }
        }
    }
}

} // verus!
