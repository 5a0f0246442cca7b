//! Every buffer that a surface has shown is given back exactly once.

use vstd::prelude::*;
use crate::client::{
    lemma_release_count_add, lemma_release_count_push, release_count, Event, PresentationFeedback,
    Scene,
};
use crate::ifs::wl_surface::apply::{
    before_apply,
    buffer_released,
    consequences_applied,
    content_applied,
    cursor_events,
    feedback_discards,
    feedback_replaced,
    serial_assigned,
    surface_step,
    texture_update,
};
use crate::ifs::wl_surface::cursor::CursorSurface;
use crate::ifs::wl_surface::pending::PendingState;
use crate::ifs::wl_surface::requests::{destroy_begun, destroy_detached, destroyed};
use crate::ifs::wl_surface::tree::{
    extents_of, extents_recalculated, is_child_of, lemma_positioned_frame, moved, visibility_set,
    visibility_set_children,
};
use crate::ifs::wl_surface::wl_subsurface::{
    parent_origin, subsurface_after_apply, subsurface_applied, WlSubsurface, MAX_SUBSURFACE_DEPTH,
};
use crate::ifs::wl_surface::{fences_of, lemma_release_once, SurfaceExt, WlSurface};
use crate::rect::clamp_i32;

verus! {

/// Whether `after` shows the same buffers as `before`, surface by surface, and has
/// told the client of no release since.
pub open spec fn buffers_kept(before: Scene, after: Scene) -> bool {
    &&& after.surfaces.len() == before.surfaces.len()
    &&& forall|i: int|
        0 <= i < before.surfaces.len() ==> (#[trigger] after.surfaces[i]).buffer
            == before.surfaces[i].buffer
    &&& release_count(after.events) == release_count(before.events)
    &&& after.render_ctx == before.render_ctx
    &&& after.live_buffers == before.live_buffers
}

pub proof fn lemma_buffers_kept_trans(a: Scene, b: Scene, c: Scene)
    requires
        buffers_kept(a, b),
        buffers_kept(b, c),
    ensures
        buffers_kept(a, c),
{
    assert forall|i: int| 0 <= i < a.surfaces.len() implies (#[trigger] c.surfaces[i]).buffer
        == a.surfaces[i].buffer by {
        assert(b.surfaces[i].buffer == a.surfaces[i].buffer);
    }
}

pub proof fn lemma_extents_keep_buffers(sc: Scene, s: usize, fuel: nat)
    ensures
        buffers_kept(sc, extents_recalculated(sc, s, fuel)),
    decreases fuel,
{
    if s < sc.surfaces.len() {
        let old = sc.surfaces[s as int];
        let ext = extents_of(sc.surfaces, s, sc.surfaces.len() as int);
        let sc1 = crate::ifs::wl_surface::tree::extents_stored(sc, s);
        assert(buffers_kept(sc, sc1));
        if old.extents != ext {
            match old.ext {
                SurfaceExt::Subsurface(sub) => {
                    if fuel > 0 {
                        lemma_extents_keep_buffers(sc1, sub.parent, (fuel - 1) as nat);
                        lemma_buffers_kept_trans(
                            sc,
                            sc1,
                            extents_recalculated(sc1, sub.parent, (fuel - 1) as nat),
                        );
                    }
                },
                SurfaceExt::Absent(_) => {},
                SurfaceExt::Other => {
                    lemma_release_count_push(sc1.events, Event::ExtentsChanged { surface: s });
                },
            }
        }
    }
}

pub proof fn lemma_visibility_keeps_buffers(sc: Scene, s: usize, visible: bool, fuel: nat)
    ensures
        buffers_kept(sc, visibility_set(sc, s, visible, fuel)),
    decreases fuel, sc.surfaces.len() + 1,
{
    if !(s >= sc.surfaces.len() || sc.surfaces[s as int].visible == visible) {
        let old = sc.surfaces[s as int];
        let sc1 = Scene {
            surfaces: sc.surfaces.update(s as int, WlSurface { visible, ..old }),
            events: sc.events.push(Event::VisibilityChanged { surface: s, visible }),
            ..sc
        };
        lemma_release_count_push(sc.events, Event::VisibilityChanged { surface: s, visible });
        assert(buffers_kept(sc, sc1));
        lemma_visibility_children_keep_buffers(sc1, s, visible, 0, sc1.surfaces.len() as int, fuel);
        lemma_buffers_kept_trans(
            sc,
            sc1,
            visibility_set_children(sc1, s, visible, 0, sc1.surfaces.len() as int, fuel),
        );
    }
}

pub proof fn lemma_visibility_children_keep_buffers(
    sc: Scene,
    s: usize,
    visible: bool,
    i: int,
    n: int,
    fuel: nat,
)
    ensures
        buffers_kept(sc, visibility_set_children(sc, s, visible, i, n, fuel)),
    decreases fuel, n - i,
{
    if 0 <= i < n {
        if fuel > 0 && i <= usize::MAX && is_child_of(sc.surfaces, i, s) {
            let next = visibility_set(sc, i as usize, visible, (fuel - 1) as nat);
            lemma_visibility_keeps_buffers(sc, i as usize, visible, (fuel - 1) as nat);
            lemma_visibility_children_keep_buffers(next, s, visible, i + 1, n, fuel);
            lemma_buffers_kept_trans(
                sc,
                next,
                visibility_set_children(next, s, visible, i + 1, n, fuel),
            );
        } else {
            lemma_visibility_children_keep_buffers(sc, s, visible, i + 1, n, fuel);
        }
    }
}

pub proof fn lemma_no_release_in_role_events(s: usize, p: PendingState)
    ensures
        release_count(crate::ifs::wl_surface::apply::role_events(s, p)) == 0,
{
    let xdg: Seq<Event> = match p.xdg_surface {
        Some(data) => match data.geometry {
            Some(geometry) => seq![Event::XdgGeometry { surface: s, geometry }],
            None => seq![],
        },
        None => seq![],
    };
    let layer: Seq<Event> = match p.layer_surface {
        Some(data) => match data.size {
            Some(size) => seq![Event::LayerSize { surface: s, width: size.0, height: size.1 }],
            None => seq![],
        },
        None => seq![],
    };
    if xdg.len() > 0 {
        lemma_release_count_push(seq![], xdg[0]);
        assert(seq![].push(xdg[0]) =~= xdg);
    }
    if layer.len() > 0 {
        lemma_release_count_push(seq![], layer[0]);
        assert(seq![].push(layer[0]) =~= layer);
    }
    lemma_release_count_add(xdg, layer);
}

pub proof fn lemma_subsurface_applied_keeps_buffers(
    sc: Scene,
    s: usize,
    data: crate::ifs::wl_surface::pending::PendingSubsurfaceData,
)
    requires
        s < sc.surfaces.len(),
    ensures
        buffers_kept(sc, subsurface_applied(sc, s, data)),
{
    match (data.position, sc.surfaces[s as int].ext) {
        (Some(at), SurfaceExt::Subsurface(sub)) => {
            let old = sc.surfaces[s as int];
            let placed = sc.surfaces.update(
                s as int,
                WlSurface {
                    ext: SurfaceExt::Subsurface(
                        WlSubsurface {
                            position: old.buffer_abs_pos.spec_at_point(at.0, at.1),
                            ..sub
                        },
                    ),
                    ..old
                },
            );
            let origin = parent_origin(sc.surfaces, sub.parent);
            let x = clamp_i32(origin.0 + at.0) as i32;
            let y = clamp_i32(origin.1 + at.1) as i32;
            lemma_positioned_frame(placed, s, x, y, MAX_SUBSURFACE_DEPTH as nat);
            let below = crate::ifs::wl_surface::tree::positioned(
                placed,
                s,
                x,
                y,
                MAX_SUBSURFACE_DEPTH as nat,
            );
            let after = subsurface_applied(sc, s, data);
            assert forall|i: int| 0 <= i < sc.surfaces.len() implies (
            #[trigger] after.surfaces[i]).buffer == sc.surfaces[i].buffer by {
                assert(moved(placed[i], below[i]));
            }
        },
        _ => {},
    }
}

pub proof fn lemma_before_apply_keeps_buffers(sc: Scene, s: usize, p: PendingState)
    requires
        s < sc.surfaces.len(),
    ensures
        buffers_kept(sc, before_apply(sc, s, p)),
{
    match (sc.surfaces[s as int].ext, p.subsurface) {
        (SurfaceExt::Subsurface(_), Some(data)) => {
            lemma_subsurface_applied_keeps_buffers(sc, s, data);
        },
        (SurfaceExt::Other, _) => {
            lemma_no_release_in_role_events(s, p);
            lemma_release_count_add(sc.events, crate::ifs::wl_surface::apply::role_events(s, p));
        },
        _ => {},
    }
}

pub proof fn lemma_after_apply_keeps_buffers(sc: Scene, s: usize)
    requires
        s < sc.surfaces.len(),
    ensures
        buffers_kept(sc, subsurface_after_apply(sc, s)),
{
    match sc.surfaces[s as int].ext {
        SurfaceExt::Subsurface(sub) => {
            let old = sc.surfaces[s as int];
            let has_buffer = old.buffer is Some;
            let sc1 = Scene {
                surfaces: sc.surfaces.update(
                    s as int,
                    WlSurface {
                        ext: SurfaceExt::Subsurface(WlSubsurface { had_buffer: has_buffer, ..sub }),
                        ..old
                    },
                ),
                ..sc
            };
            assert(buffers_kept(sc, sc1));
            lemma_visibility_keeps_buffers(sc1, s, false, MAX_SUBSURFACE_DEPTH as nat);
            lemma_visibility_keeps_buffers(sc1, s, true, MAX_SUBSURFACE_DEPTH as nat);
            lemma_buffers_kept_trans(
                sc,
                sc1,
                visibility_set(sc1, s, false, MAX_SUBSURFACE_DEPTH as nat),
            );
            lemma_buffers_kept_trans(
                sc,
                sc1,
                visibility_set(sc1, s, true, MAX_SUBSURFACE_DEPTH as nat),
            );
        },
        _ => {},
    }
}

pub proof fn lemma_no_release_in_cursor_events(cursors: Seq<CursorSurface>, s: usize, n: int)
    ensures
        release_count(cursor_events(cursors, s, n)) == 0,
    decreases n,
{
    if !(n <= 0 || n > cursors.len()) {
        lemma_no_release_in_cursor_events(cursors, s, n - 1);
        if cursors[n - 1].surface == s {
            lemma_release_count_push(
                cursor_events(cursors, s, n - 1),
                Event::CursorChanged { surface: s, seat: cursors[n - 1].seat },
            );
        }
    }
}

pub proof fn lemma_no_release_in_discards(all: Seq<PresentationFeedback>, s: usize, n: int)
    ensures
        release_count(feedback_discards(all, s, n)) == 0,
    decreases n,
{
    if !(n <= 0 || n > all.len()) {
        lemma_no_release_in_discards(all, s, n - 1);
        if all[n - 1].surface == s {
            lemma_release_count_push(
                feedback_discards(all, s, n - 1),
                Event::PresentationDiscarded { feedback: all[n - 1].feedback },
            );
        }
    }
}

pub proof fn lemma_consequences_keep_buffers(sc: Scene, s: usize, p: PendingState)
    requires
        s < sc.surfaces.len(),
    ensures
        buffers_kept(sc, consequences_applied(sc, s, p)),
{
    lemma_extents_keep_buffers(sc, s, MAX_SUBSURFACE_DEPTH as nat);
    let sc5 = if sc.surfaces[s as int].need_extents_update {
        extents_recalculated(sc, s, MAX_SUBSURFACE_DEPTH as nat)
    } else {
        sc
    };
    assert(buffers_kept(sc, sc5));
    let sc6 = if p.buffer is Some || WlSurface::geometry_changed(p) {
        Scene {
            events: sc5.events + cursor_events(sc5.cursors, s, sc5.cursors.len() as int),
            ..sc5
        }
    } else {
        sc5
    };
    lemma_no_release_in_cursor_events(sc5.cursors, s, sc5.cursors.len() as int);
    lemma_release_count_add(sc5.events, cursor_events(sc5.cursors, s, sc5.cursors.len() as int));
    assert(buffers_kept(sc5, sc6));
    lemma_buffers_kept_trans(sc, sc5, sc6);
    lemma_after_apply_keeps_buffers(sc6, s);
    let sc7 = subsurface_after_apply(sc6, s);
    lemma_buffers_kept_trans(sc, sc6, sc7);
    lemma_release_count_push(sc7.events, Event::Damage);
}

/// Whether the surface at `s` shows a buffer: 1 if it does, else 0.
pub open spec fn shown(sc: Scene, s: usize) -> nat {
    if sc.surfaces[s as int].buffer is Some {
        1
    } else {
        0
    }
}

/// Whether the commit brings a buffer: 1 if it does, else 0.
pub open spec fn brought(p: PendingState) -> nat {
    if p.buffer matches Some(Some(_)) {
        1
    } else {
        0
    }
}

/// Giving back the buffer that the surface at `s` shows, if it shows one, reaches
/// the client.
pub open spec fn release_reaches(sc: Scene, s: usize) -> bool {
    sc.surfaces[s as int].buffer matches Some(b) ==> b.can_release(sc.render_ctx, sc.live_buffers)
}

/// Giving back the buffer that the commit brings, if it brings one, will reach the
/// client: there is a render context if the commit names a release point, and the
/// client has not destroyed the buffer if it names none.
pub open spec fn commit_release_reaches(sc: Scene, p: PendingState) -> bool {
    p.buffer matches Some(Some(b)) ==> (match p.release_point {
        Some(_) => sc.render_ctx,
        None => sc.live_buffers.spec_is_live(b.id),
    })
}

/// When the new state of a surface comes, the client is told of one release
/// exactly if the commit takes a buffer from the surface.
pub proof fn lemma_content_accounts(sc: Scene, s: usize, p: PendingState)
    requires
        s < sc.surfaces.len(),
        release_reaches(sc, s),
    ensures
        ({
            let c = content_applied(sc, s, p);
            &&& c.surfaces.len() == sc.surfaces.len()
            &&& c.render_ctx == sc.render_ctx
            &&& c.live_buffers == sc.live_buffers
            &&& c.surfaces[s as int].buffer == sc.surfaces[s as int].next_buffer(p)
            &&& release_count(c.events) == release_count(sc.events) + (if p.buffer is Some
                && sc.surfaces[s as int].buffer is Some {
                1nat
            } else {
                0nat
            })
        }),
{
    let surface = sc.surfaces[s as int];
    let files = fences_of(sc.sync_files, s, sc.sync_files.len() as int);
    let sc1 = if p.buffer is Some {
        buffer_released(sc, s)
    } else {
        sc
    };
    match surface.buffer {
        Some(b) => {
            lemma_release_once(b, files, sc.render_ctx, sc.live_buffers);
            lemma_release_count_add(
                sc.events,
                b.release_events(files, sc.render_ctx, sc.live_buffers),
            );
        },
        None => {},
    }
    assert(release_count(texture_update(p)) == 0) by {
        match p.buffer {
            Some(Some(b)) => {
                lemma_release_count_push(seq![], Event::UpdateTexture { buffer: b.id });
                assert(seq![].push(Event::UpdateTexture { buffer: b.id }) =~= texture_update(p));
            },
            _ => {},
        }
    }
    lemma_release_count_add(sc1.events, texture_update(p));
}

/// What follows the coming of the new state of a surface takes no buffer from any
/// surface and tells the client of no release.
pub proof fn lemma_rest_keeps_buffers(c: Scene, s: usize, p: PendingState)
    requires
        s < c.surfaces.len(),
    ensures
        buffers_kept(
            c,
            consequences_applied(
                serial_assigned(
                    feedback_replaced(crate::ifs::wl_surface::apply::shift_applied(c, s, p), s, p),
                    s,
                    p,
                ),
                s,
                p,
            ),
        ),
{
    crate::ifs::wl_surface::apply::lemma_shift_keeps_queues(c, s, p);
    let shifted = crate::ifs::wl_surface::apply::shift_applied(c, s, p);
    assert(buffers_kept(c, shifted)) by {
        assert forall|i: int| 0 <= i < c.surfaces.len() implies (
        #[trigger] shifted.surfaces[i]).buffer == c.surfaces[i].buffer by {
            assert(crate::ifs::wl_surface::tree::moved(c.surfaces[i], shifted.surfaces[i]));
        }
    }
    let f = feedback_replaced(shifted, s, p);
    lemma_no_release_in_discards(
        shifted.presentation_feedback,
        s,
        shifted.presentation_feedback.len() as int,
    );
    lemma_release_count_add(
        shifted.events,
        feedback_discards(
            shifted.presentation_feedback,
            s,
            shifted.presentation_feedback.len() as int,
        ),
    );
    let g = serial_assigned(f, s, p);
    lemma_release_count_push(f.events, Event::SurfaceSerialAssigned { surface: s });
    assert(buffers_kept(shifted, g));
    lemma_buffers_kept_trans(c, shifted, g);
    lemma_consequences_keep_buffers(g, s, p);
    lemma_buffers_kept_trans(c, g, consequences_applied(g, s, p));
}

/// A commit that reaches a surface tells the client of one release exactly if it
/// takes a buffer from the surface: the releases so far and the buffer that is
/// shown, taken together, grow by the buffer that an accepted commit brings.
pub proof fn lemma_step_accounts(sc: Scene, s: usize, p: PendingState)
    requires
        s < sc.surfaces.len(),
        release_reaches(sc, s),
        commit_release_reaches(sc, p),
    ensures
        ({
            let after = surface_step(sc, s, p);
            &&& after.0.surfaces.len() == sc.surfaces.len()
            &&& after.0.render_ctx == sc.render_ctx
            &&& after.0.live_buffers == sc.live_buffers
            &&& release_reaches(after.0, s)
            &&& release_count(after.0.events) + shown(after.0, s) == release_count(sc.events) + shown(
                sc,
                s,
            ) + (if after.1 is None {
                brought(p)
            } else {
                0
            })
        }),
{
    lemma_before_apply_keeps_buffers(sc, s, p);
    let sc0 = before_apply(sc, s, p);
    if sc0.surfaces[s as int].apply_error(p) is None {
        lemma_content_accounts(sc0, s, p);
        let c = content_applied(sc0, s, p);
        lemma_rest_keeps_buffers(c, s, p);
    }
}

/// The scene after the first `n` of the commits reached the surface at `s`, one
/// after the other.
pub open spec fn after_commits(sc: Scene, s: usize, commits: Seq<PendingState>, n: int) -> Scene
    decreases n,
{
    if n <= 0 || n > commits.len() {
        sc
    } else {
        surface_step(after_commits(sc, s, commits, n - 1), s, commits[n - 1]).0
    }
}

/// How many of the first `n` commits brought a buffer and were accepted.
pub open spec fn buffers_attached(sc: Scene, s: usize, commits: Seq<PendingState>, n: int) -> nat
    decreases n,
{
    if n <= 0 || n > commits.len() {
        0
    } else {
        buffers_attached(sc, s, commits, n - 1) + (if surface_step(
            after_commits(sc, s, commits, n - 1),
            s,
            commits[n - 1],
        ).1 is None {
            brought(commits[n - 1])
        } else {
            0
        })
    }
}

/// Over any run of commits to a surface, the releases that the client was told of
/// and the buffer that the surface still shows add up to the buffers that were
/// attached: each buffer that was shown and superseded has been given back once.
/// This holds where a release can reach the client at all: under explicit
/// synchronisation there is a render context, and otherwise the client has not
/// destroyed the buffer.
pub proof fn lemma_releases_match_attaches(sc: Scene, s: usize, commits: Seq<PendingState>, n: int)
    requires
        s < sc.surfaces.len(),
        0 <= n <= commits.len(),
        release_reaches(sc, s),
        forall|i: int| 0 <= i < commits.len() ==> commit_release_reaches(sc, #[trigger] commits[i]),
    ensures
        ({
            let after = after_commits(sc, s, commits, n);
            &&& after.surfaces.len() == sc.surfaces.len()
            &&& after.render_ctx == sc.render_ctx
            &&& after.live_buffers == sc.live_buffers
            &&& release_reaches(after, s)
            &&& release_count(after.events) + shown(after, s) == release_count(sc.events) + shown(
                sc,
                s,
            ) + buffers_attached(sc, s, commits, n)
        }),
    decreases n,
{
    if n > 0 {
        lemma_releases_match_attaches(sc, s, commits, n - 1);
        let before = after_commits(sc, s, commits, n - 1);
        assert(commit_release_reaches(sc, commits[n - 1]));
        lemma_step_accounts(before, s, commits[n - 1]);
    }
}

/// The destruction of a surface without a role object and without a waiting commit
/// gives back the buffer that the surface shows, and tells the client of no other
/// release.
pub proof fn lemma_destroy_releases(sc: Scene, s: usize)
    requires
        s < sc.surfaces.len(),
        sc.commit_timelines.len() == sc.surfaces.len(),
        !sc.surfaces[s as int].ext.spec_is_some(),
        sc.commit_timelines[s as int].gated is None,
        release_reaches(sc, s),
    ensures
        destroyed(sc, s).1 is None,
        release_count(destroyed(sc, s).0.events) == release_count(sc.events) + shown(sc, s),
        shown(destroyed(sc, s).0, s) == 0,
{
    let begun = destroy_begun(sc, s);
    assert(begun.events =~= sc.events);
    let hidden = visibility_set(begun, s, false, MAX_SUBSURFACE_DEPTH as nat);
    lemma_visibility_keeps_buffers(begun, s, false, MAX_SUBSURFACE_DEPTH as nat);
    lemma_release_count_push(hidden.events, Event::Damage);
    let detached = destroy_detached(begun, s);
    assert(detached.surfaces[s as int].buffer == sc.surfaces[s as int].buffer);
    match detached.surfaces[s as int].buffer {
        Some(b) => {
            let files = fences_of(detached.sync_files, s, detached.sync_files.len() as int);
            lemma_release_once(b, files, detached.render_ctx, detached.live_buffers);
            lemma_release_count_add(
                detached.events,
                b.release_events(files, detached.render_ctx, detached.live_buffers),
            );
        },
        None => {},
    }
}

/// A commit leaves a surface without a role object without one.
pub proof fn lemma_step_keeps_role(sc: Scene, s: usize, p: PendingState)
    requires
        s < sc.surfaces.len(),
        sc.surfaces[s as int].ext is Absent,
    ensures
        surface_step(sc, s, p).0.surfaces.len() == sc.surfaces.len(),
        surface_step(sc, s, p).0.surfaces[s as int].ext is Absent,
        surface_step(sc, s, p).0.commit_timelines == sc.commit_timelines,
{
    crate::ifs::wl_surface::apply::lemma_step_keeps_queues(sc, s, p);
    let sc0 = before_apply(sc, s, p);
    assert(sc0 == sc);
    if sc.surfaces[s as int].apply_error(p) is None {
        let c0 = content_applied(sc, s, p);
        assert(c0.surfaces[s as int].ext is Absent);
        crate::ifs::wl_surface::apply::lemma_shift_keeps_queues(c0, s, p);
        let c = crate::ifs::wl_surface::apply::shift_applied(c0, s, p);
        assert(crate::ifs::wl_surface::tree::moved(c0.surfaces[s as int], c.surfaces[s as int]));
        assert(c.surfaces[s as int].ext is Absent);
        let g = serial_assigned(feedback_replaced(c, s, p), s, p);
        assert(g.surfaces == c.surfaces);
        let stored = crate::ifs::wl_surface::tree::extents_stored(g, s);
        assert(stored.surfaces[s as int].ext is Absent);
        let sc5 = if g.surfaces[s as int].need_extents_update {
            extents_recalculated(g, s, MAX_SUBSURFACE_DEPTH as nat)
        } else {
            g
        };
        assert(sc5.surfaces[s as int].ext is Absent);
        assert(sc5.surfaces.len() == g.surfaces.len());
    }
}

/// A run of commits leaves a surface without a role object without one, and
/// leaves no commit waiting.
pub proof fn lemma_commits_keep_role(sc: Scene, s: usize, commits: Seq<PendingState>, n: int)
    requires
        s < sc.surfaces.len(),
        0 <= n <= commits.len(),
        sc.surfaces[s as int].ext is Absent,
    ensures
        after_commits(sc, s, commits, n).surfaces.len() == sc.surfaces.len(),
        after_commits(sc, s, commits, n).surfaces[s as int].ext is Absent,
        after_commits(sc, s, commits, n).commit_timelines == sc.commit_timelines,
    decreases n,
{
    if n > 0 {
        lemma_commits_keep_role(sc, s, commits, n - 1);
        lemma_step_keeps_role(after_commits(sc, s, commits, n - 1), s, commits[n - 1]);
    }
}

/// From the first attach to the destruction of a surface, the client is told of as
/// many releases as buffers were attached: every buffer that the surface has shown
/// is given back exactly once, when it is superseded or when the surface goes.
/// This holds for a surface without a role object and without a waiting commit,
/// where a release can reach the client: under explicit synchronisation there is a
/// render context, and otherwise the client has not destroyed the buffer.
pub proof fn lemma_every_buffer_is_released(sc: Scene, s: usize, commits: Seq<PendingState>)
    requires
        s < sc.surfaces.len(),
        sc.commit_timelines.len() == sc.surfaces.len(),
        sc.surfaces[s as int].ext is Absent,
        sc.commit_timelines[s as int].gated is None,
        release_reaches(sc, s),
        forall|i: int| 0 <= i < commits.len() ==> commit_release_reaches(sc, #[trigger] commits[i]),
    ensures
        ({
            let end = destroyed(after_commits(sc, s, commits, commits.len() as int), s);
            &&& end.1 is None
            &&& shown(end.0, s) == 0
            &&& release_count(end.0.events) == release_count(sc.events) + shown(sc, s)
                + buffers_attached(sc, s, commits, commits.len() as int)
        }),
{
    let n = commits.len() as int;
    lemma_releases_match_attaches(sc, s, commits, n);
    lemma_commits_keep_role(sc, s, commits, n);
    lemma_destroy_releases(after_commits(sc, s, commits, n), s);
}

} // verus!
