//! When a commit is applied: at once, or when the fence that it waits for is ready.

use vstd::prelude::*;
use crate::client::{Client, Event, Scene};
use crate::ifs::wl_surface::apply::state_applied;
use crate::ifs::wl_surface::pending::{
    discard_events,
    has_child,
    merge_events,
    CommittedSubsurface,
    PendingState,
};
use crate::ifs::wl_surface::{CommitTimelineError, SurfaceExt, WlSurface, WlSurfaceError};

verus! {

/// Why the commits that a timeline holds are given up.
#[derive(Copy, Clone, Debug, PartialEq, Eq, Structural)]
pub enum ClearReason {
    BreakLoops,
    Destroy,
}

/// The commits of one surface that wait. At most one commit waits at a time.
pub struct CommitTimeline {
    /// The commit that waits for its fence, if one does.
    pub gated: Option<PendingState>,
}

impl CommitTimeline {
    pub open spec fn wf(self) -> bool {
        self.gated matches Some(p) ==> p.wf()
    }

    /// Whether a commit waits for its fence.
    pub open spec fn awaiting(self) -> bool {
        self.gated is Some
    }

    pub fn new() -> (r: CommitTimeline)
        ensures
            r.gated is None,
            r.wf(),
    {
        CommitTimeline { gated: None }
    }

    pub fn is_awaiting(&self) -> (r: bool)
        ensures
            r == self.awaiting(),
    {
        self.gated.is_some()
    }
}

/// The point that a commit has to wait for: its acquire point, where the rules of
/// explicit synchronisation are in force.
pub open spec fn gate_of(p: PendingState) -> Option<crate::gfx_api::SyncObjPoint> {
    if p.explicit_sync {
        p.acquire_point
    } else {
        None
    }
}

/// The accumulators after the one of the surface at `s` was emptied.
pub open spec fn emptied(before: Seq<PendingState>, s: usize, after: Seq<PendingState>) -> bool {
    &&& after.len() == before.len()
    &&& after[s as int].is_empty_state()
    &&& !after[s as int].explicit_sync
    &&& forall|i: int| 0 <= i < before.len() && i != s ==> #[trigger] after[i] == before[i]
}

/// The parent that takes the commits of the surface at `s`, if the surface is a
/// synchronized subsurface of another surface.
pub open spec fn synchronized_parent(sc: Scene, s: usize) -> Option<usize> {
    match sc.surfaces[s as int].ext {
        SurfaceExt::Subsurface(sub) => if sub.spec_sync() && sub.parent != s && sub.parent
            < sc.surfaces.len() {
            Some(sub.parent)
        } else {
            None
        },
        _ => None,
    }
}

/// The scene `after` holds the commit `p` of the synchronized child at `s` in the
/// accumulator of its parent: merged into what the child committed before, or as a
/// new entry after those of the other children. Nothing else changed but the work
/// that the merge leaves.
pub open spec fn handed_to_parent(sc: Scene, s: usize, parent: usize, p: PendingState, after: Scene) -> bool {
    let id = sc.surfaces[s as int].ext->Subsurface_0.unique_id;
    let before = sc.pending[parent as int];
    let kids = before.subsurfaces@;
    let now = after.pending[parent as int];
    &&& after.pending.len() == sc.pending.len()
    &&& after.pending[s as int].is_empty_state()
    &&& !after.pending[s as int].explicit_sync
    &&& forall|i: int|
        0 <= i < sc.pending.len() && i != s && i != parent ==> #[trigger] after.pending[i]
            == sc.pending[i]
    &&& now == (PendingState { subsurfaces: now.subsurfaces, ..before })
    &&& if has_child(kids, id) {
        let j = choose|j: int| 0 <= j < kids.len() && (#[trigger] kids[j]).id == id;
        &&& now.subsurfaces@.len() == kids.len()
        &&& forall|i: int| 0 <= i < kids.len() && i != j ==> #[trigger] now.subsurfaces@[i] == kids[i]
        &&& now.subsurfaces@[j].id == id
        &&& now.subsurfaces@[j].surface == kids[j].surface
        &&& PendingState::merged(kids[j].state, p, now.subsurfaces@[j].state)
        &&& after == (Scene {
            pending: after.pending,
            events: sc.events + merge_events(kids[j].state, p, sc.live_buffers),
            ..sc
        })
    } else {
        &&& now.subsurfaces@ == kids.push(CommittedSubsurface { id, surface: s, state: p })
        &&& after == (Scene { pending: after.pending, ..sc })
    }
}

/// What a commit request on the surface at `s` leads to.
///
/// The rules of explicit synchronisation are checked first. The commit of a
/// synchronized subsurface then goes to its parent and changes nothing that is
/// committed. Any other commit is refused while an earlier one waits for its
/// fence; it waits itself if it names an acquire point; else it is applied at once.
pub open spec fn committed(sc: Scene, s: usize, after: Scene, r: Result<(), WlSurfaceError>) -> bool {
    let surface = sc.surfaces[s as int];
    let noted = PendingState { explicit_sync: surface.sync_obj_surface, ..sc.pending[s as int] };
    match WlSurface::explicit_sync_verdict(surface.sync_obj_surface, sc.pending[s as int]) {
        Err(e) => r == Err::<(), WlSurfaceError>(e) && after == (Scene {
            pending: sc.pending.update(s as int, noted),
            ..sc
        }),
        Ok(_) => match synchronized_parent(sc, s) {
            Some(parent) => r.is_ok() && handed_to_parent(sc, s, parent, noted, after),
            None => if sc.commit_timelines[s as int].awaiting() {
                r == Err::<(), WlSurfaceError>(
                    WlSurfaceError::CommitTimelineError(CommitTimelineError::CommitPending),
                ) && after == (Scene { pending: sc.pending.update(s as int, noted), ..sc })
            } else {
                match gate_of(noted) {
                    Some(point) => {
                        &&& r.is_ok()
                        &&& emptied(sc.pending, s, after.pending)
                        &&& after == (Scene {
                            pending: after.pending,
                            commit_timelines: sc.commit_timelines.update(
                                s as int,
                                CommitTimeline { gated: Some(noted) },
                            ),
                            events: sc.events.push(Event::AwaitAcquire { surface: s, point }),
                            ..sc
                        })
                    },
                    None => {
                        let applied = state_applied(Scene { pending: after.pending, ..sc }, s, noted);
                        &&& emptied(sc.pending, s, after.pending)
                        &&& after == applied.0
                        &&& match applied.1 {
                            Some(e) => r == Err::<(), WlSurfaceError>(e),
                            None => r.is_ok(),
                        }
                    },
                }
            },
        },
    }
}

impl CommitTimeline {
    /// Queues the commit that the surface at `s` has accumulated: it is applied at
    /// once unless it names an acquire point, for which it waits. While a commit
    /// waits, no other is taken.
    pub fn commit(client: &mut Client, s: usize) -> (r: Result<(), WlSurfaceError>)
        requires
            old(client).wf(),
            s < old(client)@.surfaces.len(),
        ensures
            final(client).wf(),
            old(client)@.commit_timelines[s as int].awaiting() ==> final(client)@ == old(client)@
                && r == Err::<(), WlSurfaceError>(
                WlSurfaceError::CommitTimelineError(CommitTimelineError::CommitPending),
            ),
            !old(client)@.commit_timelines[s as int].awaiting() ==> emptied(
                old(client)@.pending,
                s,
                final(client)@.pending,
            ) && (match gate_of(old(client)@.pending[s as int]) {
                Some(point) => r.is_ok() && final(client)@ == (Scene {
                    pending: final(client)@.pending,
                    commit_timelines: old(client)@.commit_timelines.update(
                        s as int,
                        CommitTimeline { gated: Some(old(client)@.pending[s as int]) },
                    ),
                    events: old(client)@.events.push(Event::AwaitAcquire { surface: s, point }),
                    ..old(client)@
                }),
                None => {
                    let applied = state_applied(
                        Scene { pending: final(client)@.pending, ..old(client)@ },
                        s,
                        old(client)@.pending[s as int],
                    );
                    &&& final(client)@ == applied.0
                    &&& match applied.1 {
                        Some(e) => r == Err::<(), WlSurfaceError>(e),
                        None => r.is_ok(),
                    }
                },
            }),
    {
        if client.commit_timelines[s].is_awaiting() {
            return Err(WlSurfaceError::CommitTimelineError(CommitTimelineError::CommitPending));
        }
        assert(old(client)@.pending[s as int].wf());
        let pending = &mut client.pending[s];
        let p = pending.take();
        proof {
            assert forall|i: int| 0 <= i < client@.pending.len() implies (
            #[trigger] client@.pending[i]).wf() by {
                if i != s {
                    assert(old(client)@.pending[i].wf());
                }
            }
            assert(client.wf());
        }
        let gate = if p.explicit_sync {
            p.acquire_point
        } else {
            None
        };
        match gate {
            Some(point) => {
                let timeline = &mut client.commit_timelines[s];
                timeline.gated = Some(p);
                client.events.push(Event::AwaitAcquire { surface: s, point });
                proof {
                    assert(client@.commit_timelines =~= old(client)@.commit_timelines.update(
                        s as int,
                        CommitTimeline { gated: Some(old(client)@.pending[s as int]) },
                    ));
                    assert forall|i: int| 0 <= i < client@.commit_timelines.len() implies (
                    #[trigger] client@.commit_timelines[i]).wf() by {
                        if i != s {
                            assert(old(client)@.commit_timelines[i].wf());
                        }
                    }
                }
                Ok(())
            },
            None => {
                let ghost start = client@;
                assert(start == (Scene { pending: start.pending, ..old(client)@ }));
                let r = WlSurface::apply_state(client, s, p);
                proof {
                    crate::ifs::wl_surface::apply::lemma_state_keeps_queues(start, s, p);
                }
                r
            },
        }
    }

    /// The fence of the commit that waits on the surface at `s` is ready: the
    /// commit is applied. Without a waiting commit nothing happens.
    pub fn fence_ready(client: &mut Client, s: usize) -> (r: Result<(), WlSurfaceError>)
        requires
            old(client).wf(),
            s < old(client)@.surfaces.len(),
        ensures
            final(client).wf(),
            match old(client)@.commit_timelines[s as int].gated {
                Some(p) => {
                    let applied = state_applied(
                        Scene {
                            commit_timelines: old(client)@.commit_timelines.update(
                                s as int,
                                CommitTimeline { gated: None },
                            ),
                            ..old(client)@
                        },
                        s,
                        p,
                    );
                    &&& final(client)@ == applied.0
                    &&& match applied.1 {
                        Some(e) => r == Err::<(), WlSurfaceError>(e),
                        None => r.is_ok(),
                    }
                },
                None => r.is_ok() && final(client)@ == old(client)@,
            },
    {
        assert(old(client)@.commit_timelines[s as int].wf());
        let timeline = &mut client.commit_timelines[s];
        match timeline.gated.take() {
            Some(p) => {
                proof {
                    assert(client@.commit_timelines =~= old(client)@.commit_timelines.update(
                        s as int,
                        CommitTimeline { gated: None },
                    ));
                    assert forall|i: int| 0 <= i < client@.commit_timelines.len() implies (
                    #[trigger] client@.commit_timelines[i]).wf() by {
                        if i != s {
                            assert(old(client)@.commit_timelines[i].wf());
                        }
                    }
                    assert(client.wf());
                }
                WlSurface::apply_state(client, s, p)
            },
            None => {
                assert(client@.commit_timelines =~= old(client)@.commit_timelines);
                Ok(())
            },
        }
    }

    /// Gives up the commit that waits on the surface at `s`, if one does, without
    /// applying it, and pays what is owed for the buffers that it holds.
    pub fn clear(client: &mut Client, s: usize, reason: ClearReason)
        requires
            old(client).wf(),
            s < old(client)@.surfaces.len(),
        ensures
            final(client).wf(),
            final(client)@ == (Scene {
                commit_timelines: old(client)@.commit_timelines.update(
                    s as int,
                    CommitTimeline { gated: None },
                ),
                events: old(client)@.events + (match old(client)@.commit_timelines[s as int].gated {
                    Some(p) => discard_events(p, old(client)@.live_buffers),
                    None => seq![],
                }),
                ..old(client)@
            }),
    {
        let _ = reason;
        let timeline = &mut client.commit_timelines[s];
        let gated = timeline.gated.take();
        proof {
            assert(client@.commit_timelines =~= old(client)@.commit_timelines.update(
                s as int,
                CommitTimeline { gated: None },
            ));
            assert forall|i: int| 0 <= i < client@.commit_timelines.len() implies (
            #[trigger] client@.commit_timelines[i]).wf() by {
                if i != s {
                    assert(old(client)@.commit_timelines[i].wf());
                }
            }
        }
        match gated {
            Some(p) => {
                p.discard(&client.live_buffers, &mut client.events);
            },
            None => {
                assert(client@.events =~= old(client)@.events + Seq::<Event>::empty());
            },
        }
    }
}

/// The commit of a synchronized subsurface is accepted and changes nothing that is
/// committed, for any surface; it is kept in the accumulator of the parent.
pub proof fn lemma_synchronized_commit_waits(
    sc: Scene,
    s: usize,
    after: Scene,
    r: Result<(), WlSurfaceError>,
)
    requires
        s < sc.surfaces.len(),
        sc.pending.len() == sc.surfaces.len(),
        committed(sc, s, after, r),
        WlSurface::explicit_sync_verdict(
            sc.surfaces[s as int].sync_obj_surface,
            sc.pending[s as int],
        ) is Ok,
        synchronized_parent(sc, s) is Some,
    ensures
        r.is_ok(),
        after.surfaces == sc.surfaces,
        after.stack == sc.stack,
        after.cursors == sc.cursors,
        after.frame_requests == sc.frame_requests,
        after.presentation_feedback == sc.presentation_feedback,
        after.sync_files == sc.sync_files,
        after.serials == sc.serials,
        after.commit_timelines == sc.commit_timelines,
        has_child(
            after.pending[synchronized_parent(sc, s)->0 as int].subsurfaces@,
            sc.surfaces[s as int].ext->Subsurface_0.unique_id,
        ),
{
    let parent = synchronized_parent(sc, s)->0;
    let id = sc.surfaces[s as int].ext->Subsurface_0.unique_id;
    let kids = sc.pending[parent as int].subsurfaces@;
    let now = after.pending[parent as int].subsurfaces@;
    if has_child(kids, id) {
        let j = choose|j: int| 0 <= j < kids.len() && (#[trigger] kids[j]).id == id;
        assert(now[j].id == id);
    } else {
        assert(now[kids.len() as int].id == id);
    }
}

/// When a parent commits, the commits that its synchronized children handed to it
/// are applied before its own: with one child waiting, the scene is what the
/// commit of the child gives, followed by what the commit of the parent gives.
pub proof fn lemma_parent_commit_applies_child(sc: Scene, parent: usize, p: PendingState)
    requires
        p.subsurfaces@.len() == 1,
    ensures
        ({
            let child = p.subsurfaces@[0];
            let first = state_applied(sc, child.surface, child.state);
            state_applied(sc, parent, p) == (if first.1 is Some {
                first
            } else if parent >= first.0.surfaces.len() || first.0.surfaces[parent as int].destroyed {
                (first.0, None)
            } else {
                crate::ifs::wl_surface::apply::surface_step(first.0, parent, p)
            })
        }),
{
    let child = p.subsurfaces@[0];
    let first = state_applied(sc, child.surface, child.state);
    assert(crate::ifs::wl_surface::apply::children_applied(sc, p.subsurfaces@, 0) == (
    if first.1 is Some {
        first
    } else {
        crate::ifs::wl_surface::apply::children_applied(first.0, p.subsurfaces@, 1)
    }));
    assert(crate::ifs::wl_surface::apply::children_applied(first.0, p.subsurfaces@, 1) == (
        first.0,
        None::<WlSurfaceError>,
    ));
}

/// The commit of a surface that is no synchronized subsurface, with no commit
/// waiting and no acquire point to wait for, takes effect at once.
pub proof fn lemma_desynchronized_commit_applies(
    sc: Scene,
    s: usize,
    after: Scene,
    r: Result<(), WlSurfaceError>,
)
    requires
        s < sc.surfaces.len(),
        committed(sc, s, after, r),
        WlSurface::explicit_sync_verdict(
            sc.surfaces[s as int].sync_obj_surface,
            sc.pending[s as int],
        ) is Ok,
        synchronized_parent(sc, s) is None,
        !sc.commit_timelines[s as int].awaiting(),
        gate_of(
            PendingState {
                explicit_sync: sc.surfaces[s as int].sync_obj_surface,
                ..sc.pending[s as int]
            },
        ) is None,
    ensures
        after == state_applied(
            Scene { pending: after.pending, ..sc },
            s,
            PendingState {
                explicit_sync: sc.surfaces[s as int].sync_obj_surface,
                ..sc.pending[s as int]
            },
        ).0,
        after.pending[s as int].is_empty_state(),
{
}

/// A commit that has to wait for its acquire point is accepted and held back:
/// nothing that is committed changes, and the surface waits.
pub proof fn lemma_gated_commit_waits(sc: Scene, s: usize, after: Scene, r: Result<(), WlSurfaceError>)
    requires
        s < sc.surfaces.len(),
        sc.commit_timelines.len() == sc.surfaces.len(),
        committed(sc, s, after, r),
        WlSurface::explicit_sync_verdict(
            sc.surfaces[s as int].sync_obj_surface,
            sc.pending[s as int],
        ) is Ok,
        synchronized_parent(sc, s) is None,
        !sc.commit_timelines[s as int].awaiting(),
        sc.surfaces[s as int].sync_obj_surface,
        sc.pending[s as int].acquire_point is Some,
    ensures
        r.is_ok(),
        after.surfaces == sc.surfaces,
        after.commit_timelines[s as int].awaiting(),
        after.commit_timelines.len() == sc.commit_timelines.len(),
{
}

/// While a commit of a surface waits for its fence, every further commit of the
/// surface that passes the rules of explicit synchronisation is refused, and
/// changes nothing that is committed or queued.
pub proof fn lemma_commit_refused_while_waiting(
    sc: Scene,
    s: usize,
    after: Scene,
    r: Result<(), WlSurfaceError>,
)
    requires
        s < sc.surfaces.len(),
        committed(sc, s, after, r),
        WlSurface::explicit_sync_verdict(
            sc.surfaces[s as int].sync_obj_surface,
            sc.pending[s as int],
        ) is Ok,
        synchronized_parent(sc, s) is None,
        sc.commit_timelines[s as int].awaiting(),
    ensures
        r == Err::<(), WlSurfaceError>(
            WlSurfaceError::CommitTimelineError(CommitTimelineError::CommitPending),
        ),
        after.surfaces == sc.surfaces,
        after.commit_timelines == sc.commit_timelines,
        after.events == sc.events,
{
}

/// Of two commits of a surface, the second is refused if the first still waits for
/// its fence, whatever the client has asked for in between.
pub proof fn lemma_second_commit_refused(
    sc: Scene,
    s: usize,
    mid: Scene,
    r1: Result<(), WlSurfaceError>,
    asked: Seq<PendingState>,
    after: Scene,
    r2: Result<(), WlSurfaceError>,
)
    requires
        s < sc.surfaces.len(),
        sc.commit_timelines.len() == sc.surfaces.len(),
        committed(sc, s, mid, r1),
        WlSurface::explicit_sync_verdict(
            sc.surfaces[s as int].sync_obj_surface,
            sc.pending[s as int],
        ) is Ok,
        synchronized_parent(sc, s) is None,
        !sc.commit_timelines[s as int].awaiting(),
        sc.surfaces[s as int].sync_obj_surface,
        sc.pending[s as int].acquire_point is Some,
        asked.len() == mid.pending.len(),
        committed(Scene { pending: asked, ..mid }, s, after, r2),
        WlSurface::explicit_sync_verdict(mid.surfaces[s as int].sync_obj_surface, asked[s as int]) is Ok,
    ensures
        r1.is_ok(),
        r2 == Err::<(), WlSurfaceError>(
            WlSurfaceError::CommitTimelineError(CommitTimelineError::CommitPending),
        ),
        after.surfaces == sc.surfaces,
{
    lemma_gated_commit_waits(sc, s, mid, r1);
    let second = Scene { pending: asked, ..mid };
    assert(synchronized_parent(second, s) == synchronized_parent(sc, s));
    lemma_commit_refused_while_waiting(second, s, after, r2);
}

} // verus!
