//! How a commit reaches the committed state of a client's surfaces.

use vstd::prelude::*;
use crate::client::{Client, Event, FrameRequest, PresentationFeedback, Scene};
use crate::gfx_api::SyncFile;
use crate::ifs::wl_surface::cursor::CursorSurface;
use crate::ifs::wl_surface::pending::PendingState;
use crate::ifs::wl_surface::pending::CommittedSubsurface;
use crate::ifs::wl_surface::tree::{calculate_extents_upto, extents_recalculated};
use crate::ifs::wl_surface::wl_subsurface::{
    subsurface_after_apply, subsurface_applied, WlSubsurface, MAX_SUBSURFACE_DEPTH,
};
use crate::ifs::wl_surface::{
    fences_of, fences_without, BufferFence, SurfaceExt, WlSurface, WlSurfaceError,
};

verus! {

/// The scene after the surface has given its buffer back: what the release asks
/// for is due, and no fence is held on the buffer any more.
pub open spec fn buffer_released(sc: Scene, s: usize) -> Scene {
    match sc.surfaces[s as int].buffer {
        Some(b) => Scene {
            events: sc.events + b.release_events(
                fences_of(sc.sync_files, s, sc.sync_files.len() as int),
                sc.render_ctx,
                sc.live_buffers,
            ),
            sync_files: fences_without(sc.sync_files, s, sc.sync_files.len() as int),
            ..sc
        },
        None => sc,
    }
}

/// The cursors after a commit of the surface: a new buffer that comes with a shift
/// moves the hotspots of the surface against the shift, and the removal of the
/// buffer puts them at the origin.
pub open spec fn cursors_shifted(cursors: Seq<CursorSurface>, s: usize, p: PendingState) -> Seq<
    CursorSurface,
> {
    Seq::new(
        cursors.len(),
        |i: int|
            if cursors[i].surface != s {
                cursors[i]
            } else {
                match p.buffer {
                    Some(Some(_)) => if p.offset != (0i32, 0i32) {
                        cursors[i].spec_dec_hotspot(p.offset.0, p.offset.1)
                    } else {
                        cursors[i]
                    },
                    Some(None) => cursors[i].spec_set_hotspot(0, 0),
                    None => cursors[i],
                }
            },
    )
}

/// The callbacks of a commit as they wait to fire for the surface.
pub open spec fn frame_requests_of(s: usize, callbacks: Seq<u32>) -> Seq<FrameRequest> {
    Seq::new(callbacks.len(), |i: int| FrameRequest { surface: s, callback: callbacks[i] })
}

/// The feedback objects of a commit as they wait for the surface to be presented.
pub open spec fn feedback_of(s: usize, feedback: Seq<u32>) -> Seq<PresentationFeedback> {
    Seq::new(feedback.len(), |i: int| PresentationFeedback { surface: s, feedback: feedback[i] })
}

/// One discard for each of the first `n` feedback objects that wait for the surface.
pub open spec fn feedback_discards(all: Seq<PresentationFeedback>, s: usize, n: int) -> Seq<Event>
    decreases n,
{
    if n <= 0 || n > all.len() {
        seq![]
    } else if all[n - 1].surface == s {
        feedback_discards(all, s, n - 1).push(
            Event::PresentationDiscarded { feedback: all[n - 1].feedback },
        )
    } else {
        feedback_discards(all, s, n - 1)
    }
}

/// Those of the first `n` feedback objects that wait for other surfaces.
pub open spec fn feedback_without(all: Seq<PresentationFeedback>, s: usize, n: int) -> Seq<
    PresentationFeedback,
>
    decreases n,
{
    if n <= 0 || n > all.len() {
        seq![]
    } else if all[n - 1].surface == s {
        feedback_without(all, s, n - 1)
    } else {
        feedback_without(all, s, n - 1).push(all[n - 1])
    }
}

/// Those of the first `n` callbacks that wait for other surfaces.
pub open spec fn frame_requests_without(all: Seq<FrameRequest>, s: usize, n: int) -> Seq<
    FrameRequest,
>
    decreases n,
{
    if n <= 0 || n > all.len() {
        seq![]
    } else if all[n - 1].surface == s {
        frame_requests_without(all, s, n - 1)
    } else {
        frame_requests_without(all, s, n - 1).push(all[n - 1])
    }
}

/// The scene after the feedback objects of a commit took the place of those that
/// waited for the surface; the latter are discarded.
pub open spec fn feedback_replaced(sc: Scene, s: usize, p: PendingState) -> Scene {
    let n = sc.presentation_feedback.len() as int;
    Scene {
        events: sc.events + feedback_discards(sc.presentation_feedback, s, n),
        presentation_feedback: feedback_without(sc.presentation_feedback, s, n) + feedback_of(
            s,
            p.presentation_feedback@,
        ),
        ..sc
    }
}

/// The scene after the serial of a commit, if it has one, was bound to the surface.
pub open spec fn serial_assigned(sc: Scene, s: usize, p: PendingState) -> Scene {
    match p.xwayland_serial {
        Some(serial) => Scene {
            serials: sc.serials.insert(serial, s),
            events: sc.events.push(Event::SurfaceSerialAssigned { surface: s }),
            ..sc
        },
        None => sc,
    }
}

/// One notice for each of the first `n` cursors that show the surface.
pub open spec fn cursor_events(cursors: Seq<CursorSurface>, s: usize, n: int) -> Seq<Event>
    decreases n,
{
    if n <= 0 || n > cursors.len() {
        seq![]
    } else if cursors[n - 1].surface == s {
        cursor_events(cursors, s, n - 1).push(
            Event::CursorChanged { surface: s, seat: cursors[n - 1].seat },
        )
    } else {
        cursor_events(cursors, s, n - 1)
    }
}

impl Client {
    /// The surface gives back the buffer that it shows, if it shows one, together
    /// with the fences that readers hold on it.
    pub fn release_buffer(&mut self, s: usize)
        requires
            s < old(self)@.surfaces.len(),
        ensures
            final(self)@ == buffer_released(old(self)@, s),
    {
        match self.surfaces[s].buffer {
            Some(b) => {
                let mut files: Vec<SyncFile> = Vec::new();
                let mut kept: Vec<BufferFence> = Vec::new();
                let mut i: usize = 0;
                while i < self.sync_files.len()
                    invariant
                        0 <= i <= self.sync_files.len(),
                        files@ == fences_of(self.sync_files@, s, i as int),
                        kept@ == fences_without(self.sync_files@, s, i as int),
                    decreases self.sync_files.len() - i,
                {
                    let f = self.sync_files[i];
                    if f.surface == s {
                        files.push(f.sync_file);
                    } else {
                        kept.push(f);
                    }
                    i += 1;
                }
                b.release(&files, self.render_ctx, &self.live_buffers, &mut self.events);
                self.sync_files = kept;
            },
            None => {},
        }
    }

    /// Moves the hotspots of the cursors that show the surface as a commit asks.
    pub fn shift_cursors(&mut self, s: usize, p: &PendingState)
        ensures
            final(self)@ == (Scene { cursors: cursors_shifted(old(self)@.cursors, s, *p), ..old(self)@ }),
    {
        let mut i: usize = 0;
        while i < self.cursors.len()
            invariant
                0 <= i <= self.cursors.len(),
                self.cursors@.len() == old(self).cursors@.len(),
                forall|j: int|
                    0 <= j < i ==> self.cursors@[j] == cursors_shifted(old(self).cursors@, s, *p)[j],
                forall|j: int|
                    i <= j < self.cursors@.len() ==> self.cursors@[j] == old(self).cursors@[j],
                self@ == (Scene { cursors: self.cursors@, ..old(self)@ }),
            decreases self.cursors.len() - i,
        {
            if self.cursors[i].surface == s {
                match p.buffer {
                    Some(Some(_)) => {
                        if p.offset.0 != 0 || p.offset.1 != 0 {
                            let c = &mut self.cursors[i];
                            c.dec_hotspot(p.offset.0, p.offset.1);
                        }
                    },
                    Some(None) => {
                        let c = &mut self.cursors[i];
                        c.set_hotspot(0, 0);
                    },
                    None => {},
                }
            }
            i += 1;
        }
        assert(self.cursors@ =~= cursors_shifted(old(self).cursors@, s, *p));
    }

    /// Queues the callbacks of a commit of the surface.
    pub fn flush_frame_requests(&mut self, s: usize, callbacks: &Vec<u32>)
        ensures
            final(self)@ == (Scene {
                frame_requests: old(self)@.frame_requests + frame_requests_of(s, callbacks@),
                ..old(self)@
            }),
    {
        let mut i: usize = 0;
        while i < callbacks.len()
            invariant
                0 <= i <= callbacks.len(),
                self@ == (Scene { frame_requests: self.frame_requests@, ..old(self)@ }),
                self.frame_requests@ == old(self).frame_requests@ + frame_requests_of(
                    s,
                    callbacks@,
                ).subrange(0, i as int),
            decreases callbacks.len() - i,
        {
            self.frame_requests.push(FrameRequest { surface: s, callback: callbacks[i] });
            assert(frame_requests_of(s, callbacks@).subrange(0, i as int + 1) =~= frame_requests_of(
                s,
                callbacks@,
            ).subrange(0, i as int).push(FrameRequest { surface: s, callback: callbacks@[i as int] }));
            i += 1;
        }
        assert(frame_requests_of(s, callbacks@).subrange(0, i as int) =~= frame_requests_of(
            s,
            callbacks@,
        ));
    }

    /// Puts the feedback objects of a commit in the place of those that waited for
    /// the surface, and discards the latter.
    pub fn replace_feedback(&mut self, s: usize, p: &PendingState)
        ensures
            final(self)@ == feedback_replaced(old(self)@, s, *p),
    {
        let mut kept: Vec<PresentationFeedback> = Vec::new();
        let mut i: usize = 0;
        while i < self.presentation_feedback.len()
            invariant
                0 <= i <= self.presentation_feedback.len(),
                self@ == (Scene { events: self.events@, ..old(self)@ }),
                self.events@ == old(self).events@ + feedback_discards(
                    self.presentation_feedback@,
                    s,
                    i as int,
                ),
                kept@ == feedback_without(self.presentation_feedback@, s, i as int),
            decreases self.presentation_feedback.len() - i,
        {
            let f = self.presentation_feedback[i];
            if f.surface == s {
                self.events.push(Event::PresentationDiscarded { feedback: f.feedback });
            } else {
                kept.push(f);
            }
            i += 1;
        }
        let ghost base = kept@;
        let mut k: usize = 0;
        while k < p.presentation_feedback.len()
            invariant
                0 <= k <= p.presentation_feedback.len(),
                kept@ == base + feedback_of(s, p.presentation_feedback@).subrange(0, k as int),
            decreases p.presentation_feedback.len() - k,
        {
            kept.push(PresentationFeedback { surface: s, feedback: p.presentation_feedback[k] });
            assert(feedback_of(s, p.presentation_feedback@).subrange(0, k as int + 1)
                =~= feedback_of(s, p.presentation_feedback@).subrange(0, k as int).push(
                PresentationFeedback { surface: s, feedback: p.presentation_feedback@[k as int] },
            ));
            k += 1;
        }
        assert(feedback_of(s, p.presentation_feedback@).subrange(0, k as int) =~= feedback_of(
            s,
            p.presentation_feedback@,
        ));
        self.presentation_feedback = kept;
    }

    /// Binds the serial of a commit, if it has one, to the surface.
    pub fn assign_serial(&mut self, s: usize, p: &PendingState)
        ensures
            final(self)@ == serial_assigned(old(self)@, s, *p),
    {
        match p.xwayland_serial {
            Some(serial) => {
                self.surfaces_by_xwayland_serial.set(serial, s);
                self.events.push(Event::SurfaceSerialAssigned { surface: s });
            },
            None => {},
        }
    }

    /// Tells every seat whose cursor shows the surface that the content changed.
    pub fn notify_cursors(&mut self, s: usize)
        ensures
            final(self)@ == (Scene {
                events: old(self)@.events + cursor_events(
                    old(self)@.cursors,
                    s,
                    old(self)@.cursors.len() as int,
                ),
                ..old(self)@
            }),
    {
        let mut i: usize = 0;
        while i < self.cursors.len()
            invariant
                0 <= i <= self.cursors.len(),
                self@ == (Scene { events: self.events@, ..old(self)@ }),
                self.events@ == old(self).events@ + cursor_events(self.cursors@, s, i as int),
            decreases self.cursors.len() - i,
        {
            if self.cursors[i].surface == s {
                self.events.push(Event::CursorChanged { surface: s, seat: self.cursors[i].seat });
            }
            i += 1;
        }
    }
}

/// What a role object outside the pipeline is told of the state that a commit
/// brings for it.
pub open spec fn role_events(s: usize, p: PendingState) -> Seq<Event> {
    (match p.xdg_surface {
        Some(data) => match data.geometry {
            Some(geometry) => seq![Event::XdgGeometry { surface: s, geometry }],
            None => seq![],
        },
        None => seq![],
    }) + (match p.layer_surface {
        Some(data) => match data.size {
            Some(size) => seq![Event::LayerSize { surface: s, width: size.0, height: size.1 }],
            None => seq![],
        },
        None => seq![],
    })
}

/// The scene after the role object of the surface has looked at a commit that is
/// about to be applied: a subsurface takes over its place and position, and a role
/// object outside the pipeline is told of its state.
pub open spec fn before_apply(sc: Scene, s: usize, p: PendingState) -> Scene {
    match (sc.surfaces[s as int].ext, p.subsurface) {
        (SurfaceExt::Subsurface(_), Some(data)) => subsurface_applied(sc, s, data),
        (SurfaceExt::Other, _) => Scene { events: sc.events + role_events(s, p), ..sc },
        _ => sc,
    }
}

/// The upload that a commit with a buffer asks for.
pub open spec fn texture_update(p: PendingState) -> Seq<Event> {
    match p.buffer {
        Some(Some(b)) => seq![Event::UpdateTexture { buffer: b.id }],
        _ => seq![],
    }
}

/// The scene after the old buffer went and the new state of the surface came.
pub open spec fn content_applied(sc: Scene, s: usize, p: PendingState) -> Scene {
    let sc1 = if p.buffer is Some {
        buffer_released(sc, s)
    } else {
        sc
    };
    Scene {
        events: sc1.events + texture_update(p),
        cursors: cursors_shifted(sc1.cursors, s, p),
        surfaces: sc1.surfaces.update(s as int, sc1.surfaces[s as int].spec_applied_own(p)),
        frame_requests: sc1.frame_requests + frame_requests_of(s, p.frame_request@),
        ..sc1
    }
}

/// The scene after the shift that a commit brings with its buffer took effect: the
/// surface, and the surfaces below it with it, lie further by the accumulated
/// offset.
pub open spec fn shift_applied(sc: Scene, s: usize, p: PendingState) -> Scene {
    if WlSurface::shifted(p) {
        let at = sc.surfaces[s as int].buffer_abs_pos;
        Scene {
            surfaces: crate::ifs::wl_surface::tree::positioned(
                sc.surfaces,
                s,
                crate::rect::clamp_i32(at.x1 + p.offset.0) as i32,
                crate::rect::clamp_i32(at.y1 + p.offset.1) as i32,
                MAX_SUBSURFACE_DEPTH as nat,
            ),
            ..sc
        }
    } else {
        sc
    }
}

/// The scene after what follows from the new state of the surface has happened:
/// the bounding rectangles, the notices for cursors, the role object's last look,
/// and the request to draw again.
pub open spec fn consequences_applied(sc: Scene, s: usize, p: PendingState) -> Scene {
    let sc5 = if sc.surfaces[s as int].need_extents_update {
        extents_recalculated(sc, s, MAX_SUBSURFACE_DEPTH as nat)
    } else {
        sc
    };
    let sc6 = if p.buffer is Some || WlSurface::geometry_changed(p) {
        Scene {
            events: sc5.events + cursor_events(sc5.cursors, s, sc5.cursors.len() as int),
            ..sc5
        }
    } else {
        sc5
    };
    let sc7 = subsurface_after_apply(sc6, s);
    Scene { events: sc7.events.push(Event::Damage), ..sc7 }
}

/// The scene after a commit that the surface accepts was applied to it.
pub open spec fn surface_applied(sc: Scene, s: usize, p: PendingState) -> Scene {
    consequences_applied(
        serial_assigned(
            feedback_replaced(shift_applied(content_applied(sc, s, p), s, p), s, p),
            s,
            p,
        ),
        s,
        p,
    )
}

/// The scene after a commit reached a surface that is there, and the reason for
/// which the surface refused the commit, if it did. The role object looks at the
/// commit first; a commit that is refused changes nothing else.
pub open spec fn surface_step(sc: Scene, s: usize, p: PendingState) -> (Scene, Option<WlSurfaceError>) {
    let sc0 = before_apply(sc, s, p);
    match sc0.surfaces[s as int].apply_error(p) {
        Some(e) => (sc0, Some(e)),
        None => (surface_applied(sc0, s, p), None),
    }
}

/// The scene after a commit and the commits of synchronized children that it
/// carries were applied, children first, and the reason for which one of the
/// surfaces refused, if one did. Nothing is applied after a refusal, and nothing to
/// a surface that is destroyed or not there.
pub open spec fn state_applied(sc: Scene, s: usize, p: PendingState) -> (Scene, Option<WlSurfaceError>)
    decreases p, 0nat,
{
    let (sc1, err) = children_applied(sc, p.subsurfaces@, 0);
    if err is Some {
        (sc1, err)
    } else if s >= sc1.surfaces.len() || sc1.surfaces[s as int].destroyed {
        (sc1, None)
    } else {
        surface_step(sc1, s, p)
    }
}

/// The scene after the commits of the children from `i` on were applied in order.
pub open spec fn children_applied(sc: Scene, kids: Seq<CommittedSubsurface>, i: int) -> (
    Scene,
    Option<WlSurfaceError>,
)
    decreases kids, kids.len() - i,
{
    if i < 0 || i >= kids.len() {
        (sc, None)
    } else {
        let (sc1, err) = state_applied(sc, kids[i].surface, kids[i].state);
        if err is Some {
            (sc1, err)
        } else {
            children_applied(sc1, kids, i + 1)
        }
    }
}

impl Client {
    /// Lets the old buffer go and the new state of the surface come.
    pub fn apply_content(&mut self, s: usize, p: &mut PendingState)
        requires
            old(self).wf(),
            old(p).wf(),
            s < old(self)@.surfaces.len(),
            old(self)@.surfaces[s as int].apply_error(*old(p)) is None,
        ensures
            final(self)@ == content_applied(old(self)@, s, *old(p)),
            final(self).wf(),
            final(self)@.surfaces.len() == old(self)@.surfaces.len(),
            *final(p) == (PendingState { input_region: None, opaque_region: None, ..*old(p) }),
    {
        if p.buffer.is_some() {
            self.release_buffer(s);
        }
        match p.buffer {
            Some(Some(b)) => {
                self.events.push(Event::UpdateTexture { buffer: b.id });
            },
            _ => {},
        }
        let ghost sc1 = self@;
        assert(sc1.events =~= (if old(p).buffer is Some {
            buffer_released(old(self)@, s)
        } else {
            old(self)@
        }).events + texture_update(*old(p)));
        self.shift_cursors(s, p);
        self.flush_frame_requests(s, &p.frame_request);
        let surface = &mut self.surfaces[s];
        let r = surface.apply_own(p);
        proof {
            let now = self@.surfaces;
            assert forall|i: int| 0 <= i < now.len() implies (#[trigger] now[i]).wf() by {
                if i != s {
                    assert(old(self)@.surfaces[i].wf());
                }
            }
        }
    }

    /// Lets the shift that a commit brings with its buffer take effect.
    pub fn apply_shift(&mut self, s: usize, p: &PendingState)
        requires
            old(self).wf(),
            s < old(self)@.surfaces.len(),
        ensures
            final(self)@ == shift_applied(old(self)@, s, *p),
            final(self).wf(),
            final(self)@.surfaces.len() == old(self)@.surfaces.len(),
    {
        if WlSurface::commit_shifts(p) {
            let at = self.surfaces[s].buffer_abs_pos;
            let x: i32 = crate::rect::sat_add(at.x1, p.offset.0);
            let y: i32 = crate::rect::sat_add(at.y1, p.offset.1);
            WlSurface::set_absolute_position(self, s, x, y);
            proof {
                crate::ifs::wl_surface::tree::lemma_positioned_frame(
                    old(self)@.surfaces,
                    s,
                    x,
                    y,
                    MAX_SUBSURFACE_DEPTH as nat,
                );
            }
        }
    }

    /// Lets what follows from the new state of the surface happen.
    pub fn apply_consequences(&mut self, s: usize, p: &PendingState)
        requires
            old(self).wf(),
            s < old(self)@.surfaces.len(),
        ensures
            final(self)@ == consequences_applied(old(self)@, s, *p),
            final(self).wf(),
    {
        if self.surfaces[s].need_extents_update {
            calculate_extents_upto(self, s, MAX_SUBSURFACE_DEPTH);
            proof {
                lemma_extents_len(old(self)@, s, MAX_SUBSURFACE_DEPTH as nat);
            }
        }
        if p.buffer.is_some() || WlSurface::commit_changes_geometry(p) {
            self.notify_cursors(s);
        }
        WlSubsurface::after_apply_commit(self, s);
        self.events.push(Event::Damage);
    }

    /// Lets the role object of the surface look at a commit that is about to be applied.
    pub fn before_apply_commit(&mut self, s: usize, p: &PendingState)
        requires
            old(self).wf(),
            s < old(self)@.surfaces.len(),
        ensures
            final(self)@ == before_apply(old(self)@, s, *p),
            final(self).wf(),
            final(self)@.surfaces.len() == old(self)@.surfaces.len(),
    {
        match (self.surfaces[s].ext, p.subsurface) {
            (SurfaceExt::Subsurface(_), Some(data)) => {
                WlSubsurface::apply_state(self, s, data);
            },
            (SurfaceExt::Other, _) => {
                let ghost before = self.events@;
                match p.xdg_surface {
                    Some(data) => {
                        match data.geometry {
                            Some(geometry) => {
                                self.events.push(Event::XdgGeometry { surface: s, geometry });
                            },
                            None => {},
                        }
                    },
                    None => {},
                }
                match p.layer_surface {
                    Some(data) => {
                        match data.size {
                            Some(size) => {
                                self.events.push(
                                    Event::LayerSize { surface: s, width: size.0, height: size.1 },
                                );
                            },
                            None => {},
                        }
                    },
                    None => {},
                }
                assert(self.events@ =~= before + role_events(s, *p));
            },
            _ => {},
        }
    }

    /// Applies a commit to a surface that is there.
    pub fn apply_surface(&mut self, s: usize, p: PendingState) -> (r: Result<(), WlSurfaceError>)
        requires
            old(self).wf(),
            p.wf(),
            s < old(self)@.surfaces.len(),
        ensures
            final(self)@ == surface_step(old(self)@, s, p).0,
            r.is_ok() <==> surface_step(old(self)@, s, p).1 is None,
            r matches Err(e) ==> surface_step(old(self)@, s, p).1 == Some(e),
            final(self).wf(),
            final(self)@.surfaces.len() == old(self)@.surfaces.len(),
    {
        let mut p = p;
        self.before_apply_commit(s, &p);
        let ghost sc0 = self@;
        match self.surfaces[s].check_apply(&p) {
            Some(e) => {
                return Err(e);
            },
            None => {},
        }
        let ghost given = p;
        self.apply_content(s, &mut p);
        self.apply_shift(s, &p);
        let ghost shifted = self@;
        assert(shifted == shift_applied(content_applied(sc0, s, given), s, given));
        self.replace_feedback(s, &p);
        self.assign_serial(s, &p);
        proof {
            assert(feedback_replaced(shifted, s, p) == feedback_replaced(shifted, s, given));
            assert(consequences_applied(self@, s, p) == consequences_applied(self@, s, given));
        }
        self.apply_consequences(s, &p);
        proof {
            lemma_consequences_len(
                serial_assigned(feedback_replaced(shifted, s, given), s, given),
                s,
                given,
            );
        }
        Ok(())
    }
}

/// Computing bounding rectangles anew neither adds nor removes a surface.
pub proof fn lemma_extents_len(sc: Scene, s: usize, fuel: nat)
    ensures
        extents_recalculated(sc, s, fuel).surfaces.len() == sc.surfaces.len(),
    decreases fuel,
{
    if s < sc.surfaces.len() {
        let old = sc.surfaces[s as int];
        let ext = crate::ifs::wl_surface::tree::extents_of(sc.surfaces, s, sc.surfaces.len() as int);
        let sc1 = crate::ifs::wl_surface::tree::extents_stored(sc, s);
        if old.extents != ext {
            match old.ext {
                SurfaceExt::Subsurface(sub) => {
                    if fuel > 0 {
                        lemma_extents_len(sc1, sub.parent, (fuel - 1) as nat);
                    }
                },
                _ => {},
            }
        }
    }
}

/// Making surfaces visible or invisible neither adds nor removes a surface.
pub proof fn lemma_visibility_len(sc: Scene, s: usize, visible: bool, fuel: nat)
    ensures
        crate::ifs::wl_surface::tree::visibility_set(sc, s, visible, fuel).surfaces.len()
            == sc.surfaces.len(),
    decreases fuel, sc.surfaces.len() + 1,
{
    if !(s >= sc.surfaces.len() || sc.surfaces[s as int].visible == visible) {
        let old = sc.surfaces[s as int];
        let sc1 = Scene {
            surfaces: sc.surfaces.update(s as int, WlSurface { visible, ..old }),
            events: sc.events.push(Event::VisibilityChanged { surface: s, visible }),
            ..sc
        };
        lemma_visibility_children_len(sc1, s, visible, 0, sc1.surfaces.len() as int, fuel);
    }
}

pub proof fn lemma_visibility_children_len(
    sc: Scene,
    s: usize,
    visible: bool,
    i: int,
    n: int,
    fuel: nat,
)
    ensures
        crate::ifs::wl_surface::tree::visibility_set_children(
            sc,
            s,
            visible,
            i,
            n,
            fuel,
        ).surfaces.len() == sc.surfaces.len(),
    decreases fuel, n - i,
{
    if 0 <= i < n {
        if fuel > 0 && i <= usize::MAX && crate::ifs::wl_surface::tree::is_child_of(
            sc.surfaces,
            i,
            s,
        ) {
            lemma_visibility_len(sc, i as usize, visible, (fuel - 1) as nat);
            lemma_visibility_children_len(
                crate::ifs::wl_surface::tree::visibility_set(sc, i as usize, visible, (fuel - 1) as nat),
                s,
                visible,
                i + 1,
                n,
                fuel,
            );
        } else {
            lemma_visibility_children_len(sc, s, visible, i + 1, n, fuel);
        }
    }
}

/// What follows from a commit neither adds nor removes a surface.
pub proof fn lemma_consequences_len(sc: Scene, s: usize, p: PendingState)
    requires
        s < sc.surfaces.len(),
    ensures
        consequences_applied(sc, s, p).surfaces.len() == sc.surfaces.len(),
{
    lemma_consequences_keep_queues(sc, s, p);
}

/// What a commit does to the state of a surface does not depend on the commits of
/// children that it carries.
pub proof fn lemma_own_ignores_children(surface: WlSurface, p: PendingState, q: PendingState)
    requires
        q == (PendingState { subsurfaces: q.subsurfaces, ..p }),
    ensures
        surface.apply_error(p) == surface.apply_error(q),
        surface.spec_applied_own(p) == surface.spec_applied_own(q),
{
    assert(surface.next_scale(p) == surface.next_scale(q));
    assert(surface.next_transform(p) == surface.next_transform(q));
    assert(surface.next_src_rect(p) == surface.next_src_rect(q));
    assert(surface.next_dst_size(p) == surface.next_dst_size(q));
    assert(WlSurface::geometry_changed(p) == WlSurface::geometry_changed(q));
    assert(surface.viewport_ambiguous(p) == surface.viewport_ambiguous(q));
    assert(surface.next_buffer(p) == surface.next_buffer(q));
    assert(surface.next_buffer_points(p) == surface.next_buffer_points(q));
    assert(surface.next_size(p) == surface.next_size(q));
    assert(surface.sampling_updated(p) == surface.sampling_updated(q));
    assert(surface.next_sample(p) == surface.next_sample(q));
    assert(surface.viewport_outside(p) == surface.viewport_outside(q));
    assert(surface.next_abs_pos(p) == surface.next_abs_pos(q));
    assert(surface.resized(p) == surface.resized(q));
    assert(surface.next_offset(p) == surface.next_offset(q));
    assert(WlSurface::shifted(p) == WlSurface::shifted(q));
}

/// What a commit does to a surface and to what hangs on it does not depend on the
/// commits of children that it carries.
pub proof fn lemma_applied_ignores_children(sc: Scene, s: usize, p: PendingState, q: PendingState)
    requires
        s < sc.surfaces.len(),
        q == (PendingState { subsurfaces: q.subsurfaces, ..p }),
    ensures
        surface_applied(sc, s, p) == surface_applied(sc, s, q),
{
    let sc1 = if p.buffer is Some {
        buffer_released(sc, s)
    } else {
        sc
    };
    lemma_own_ignores_children(sc1.surfaces[s as int], p, q);
    assert(texture_update(p) == texture_update(q));
    assert(cursors_shifted(sc1.cursors, s, p) =~= cursors_shifted(sc1.cursors, s, q));
    assert(content_applied(sc, s, p) == content_applied(sc, s, q));
    let c0 = content_applied(sc, s, p);
    assert(shift_applied(c0, s, p) == shift_applied(c0, s, q));
    let c = shift_applied(c0, s, p);
    assert(feedback_replaced(c, s, p) == feedback_replaced(c, s, q));
    let f = feedback_replaced(c, s, p);
    assert(serial_assigned(f, s, p) == serial_assigned(f, s, q));
    let g = serial_assigned(f, s, p);
    assert(consequences_applied(g, s, p) == consequences_applied(g, s, q));
}

pub proof fn lemma_step_ignores_children(sc: Scene, s: usize, p: PendingState, q: PendingState)
    requires
        s < sc.surfaces.len(),
        q == (PendingState { subsurfaces: q.subsurfaces, ..p }),
    ensures
        surface_step(sc, s, p) == surface_step(sc, s, q),
{
    let sc0 = before_apply(sc, s, p);
    assert(sc0 == before_apply(sc, s, q));
    assert(sc0.surfaces.len() == sc.surfaces.len()) by {
        lemma_before_apply_len(sc, s, p);
    }
    lemma_own_ignores_children(sc0.surfaces[s as int], p, q);
    lemma_applied_ignores_children(sc0, s, p, q);
}

/// The look of the role object at a commit neither adds nor removes a surface.
pub proof fn lemma_before_apply_len(sc: Scene, s: usize, p: PendingState)
    requires
        s < sc.surfaces.len(),
    ensures
        before_apply(sc, s, p).surfaces.len() == sc.surfaces.len(),
{
    match (sc.surfaces[s as int].ext, p.subsurface) {
        (SurfaceExt::Subsurface(sub), Some(data)) => {
            match data.position {
                Some(at) => {
                    let old = sc.surfaces[s as int];
                    let placed = sc.surfaces.update(
                        s as int,
                        WlSurface {
                            ext: SurfaceExt::Subsurface(
                                WlSubsurface {
                                    position: old.buffer_abs_pos.spec_at_point(at.0, at.1),
                                    ..sub
                                },
                            ),
                            ..old
                        },
                    );
                    let origin = crate::ifs::wl_surface::wl_subsurface::parent_origin(
                        sc.surfaces,
                        sub.parent,
                    );
                    crate::ifs::wl_surface::tree::lemma_positioned_frame(
                        placed,
                        s,
                        crate::rect::clamp_i32(origin.0 + at.0) as i32,
                        crate::rect::clamp_i32(origin.1 + at.1) as i32,
                        MAX_SUBSURFACE_DEPTH as nat,
                    );
                },
                None => {},
            }
        },
        _ => {},
    }
}

impl WlSurface {
    /// Applies a commit: first the commits of synchronized children that it
    /// carries, in their order, then the commit itself. A surface that is destroyed
    /// or not there takes no commit; what was applied to children before stays.
    pub fn apply_state(client: &mut Client, s: usize, pending: PendingState) -> (r: Result<
        (),
        WlSurfaceError,
    >)
        requires
            old(client).wf(),
            pending.wf(),
        ensures
            final(client)@ == state_applied(old(client)@, s, pending).0,
            r.is_ok() <==> state_applied(old(client)@, s, pending).1 is None,
            r matches Err(e) ==> state_applied(old(client)@, s, pending).1 == Some(e),
            final(client).wf(),
        decreases pending, 0nat,
    {
        let mut p = pending;
        let mut kids: Vec<CommittedSubsurface> = Vec::new();
        std::mem::swap(&mut p.subsurfaces, &mut kids);
        match apply_children(client, kids) {
            Err(e) => {
                return Err(e);
            },
            Ok(()) => {},
        }
        if s >= client.surfaces.len() {
            return Ok(());
        }
        if client.surfaces[s].destroyed {
            return Ok(());
        }
        proof {
            lemma_step_ignores_children(client@, s, pending, p);
        }
        client.apply_surface(s, p)
    }
}

/// Applies the commits of children in order, up to the first that is refused.
pub fn apply_children(client: &mut Client, kids: Vec<CommittedSubsurface>) -> (r: Result<
    (),
    WlSurfaceError,
>)
    requires
        old(client).wf(),
        forall|i: int| 0 <= i < kids@.len() ==> (#[trigger] kids@[i]).state.wf(),
    ensures
        final(client)@ == children_applied(old(client)@, kids@, 0).0,
        r.is_ok() <==> children_applied(old(client)@, kids@, 0).1 is None,
        r matches Err(e) ==> children_applied(old(client)@, kids@, 0).1 == Some(e),
        final(client).wf(),
    decreases kids@, kids@.len(),
{
    let ghost kids0 = kids@;
    let mut rest = kids;
    let mut i: usize = 0;
    while i < rest.len()
        invariant
            0 <= i <= rest.len(),
            rest@.len() == kids0.len(),
            kids0 == kids@,
            forall|j: int| i <= j < rest@.len() ==> #[trigger] rest@[j] == kids0[j],
            forall|j: int| 0 <= j < kids0.len() ==> (#[trigger] kids0[j]).state.wf(),
            client.wf(),
            children_applied(client@, kids0, i as int) == children_applied(old(client)@, kids0, 0),
        decreases rest.len() - i,
    {
        let ghost before = client@;
        let surface: usize = rest[i].surface;
        let mut state = PendingState::new();
        let kid = &mut rest[i];
        std::mem::swap(&mut kid.state, &mut state);
        assert(rest@[i as int].surface == kids0[i as int].surface);
        assert(state == kids0[i as int].state);
        assert(surface == kids0[i as int].surface);
        assert(children_applied(before, kids0, i as int) == (if state_applied(
            before,
            surface,
            state,
        ).1 is Some {
            state_applied(before, surface, state)
        } else {
            children_applied(state_applied(before, surface, state).0, kids0, i as int + 1)
        }));
        match WlSurface::apply_state(client, surface, state) {
            Err(e) => {
                return Err(e);
            },
            Ok(()) => {},
        }
        i += 1;
    }
    Ok(())
}

/// Applying a commit leaves the accumulators and the timelines of all surfaces as
/// they are.
pub proof fn lemma_state_keeps_queues(sc: Scene, s: usize, p: PendingState)
    ensures
        state_applied(sc, s, p).0.pending == sc.pending,
        state_applied(sc, s, p).0.commit_timelines == sc.commit_timelines,
        state_applied(sc, s, p).0.surfaces.len() == sc.surfaces.len(),
        state_applied(sc, s, p).0.live_buffers == sc.live_buffers,
        state_applied(sc, s, p).0.render_ctx == sc.render_ctx,
    decreases p, 0nat,
{
    lemma_children_keep_queues(sc, p.subsurfaces@, 0);
    let (sc1, err) = children_applied(sc, p.subsurfaces@, 0);
    if err is None && s < sc1.surfaces.len() && !sc1.surfaces[s as int].destroyed {
        lemma_step_keeps_queues(sc1, s, p);
    }
}

pub proof fn lemma_children_keep_queues(sc: Scene, kids: Seq<CommittedSubsurface>, i: int)
    ensures
        children_applied(sc, kids, i).0.pending == sc.pending,
        children_applied(sc, kids, i).0.commit_timelines == sc.commit_timelines,
        children_applied(sc, kids, i).0.surfaces.len() == sc.surfaces.len(),
        children_applied(sc, kids, i).0.live_buffers == sc.live_buffers,
        children_applied(sc, kids, i).0.render_ctx == sc.render_ctx,
    decreases kids, kids.len() - i,
{
    if 0 <= i < kids.len() {
        lemma_state_keeps_queues(sc, kids[i].surface, kids[i].state);
        let (sc1, err) = state_applied(sc, kids[i].surface, kids[i].state);
        if err is None {
            lemma_children_keep_queues(sc1, kids, i + 1);
        }
    }
}

pub proof fn lemma_step_keeps_queues(sc: Scene, s: usize, p: PendingState)
    requires
        s < sc.surfaces.len(),
    ensures
        surface_step(sc, s, p).0.pending == sc.pending,
        surface_step(sc, s, p).0.commit_timelines == sc.commit_timelines,
        surface_step(sc, s, p).0.surfaces.len() == sc.surfaces.len(),
        surface_step(sc, s, p).0.live_buffers == sc.live_buffers,
        surface_step(sc, s, p).0.render_ctx == sc.render_ctx,
{
    lemma_before_apply_len(sc, s, p);
    let sc0 = before_apply(sc, s, p);
    let c = content_applied(sc0, s, p);
    lemma_shift_keeps_queues(c, s, p);
    let g = serial_assigned(feedback_replaced(shift_applied(c, s, p), s, p), s, p);
    assert(g.surfaces.len() == sc.surfaces.len());
    lemma_consequences_keep_queues(g, s, p);
}

/// The shift of a surface changes nothing but where surfaces lie.
pub proof fn lemma_shift_keeps_queues(sc: Scene, s: usize, p: PendingState)
    requires
        s < sc.surfaces.len(),
    ensures
        shift_applied(sc, s, p) == (Scene { surfaces: shift_applied(sc, s, p).surfaces, ..sc }),
        crate::ifs::wl_surface::tree::moved_only(sc.surfaces, shift_applied(sc, s, p).surfaces),
{
    let at = sc.surfaces[s as int].buffer_abs_pos;
    crate::ifs::wl_surface::tree::lemma_positioned_frame(
        sc.surfaces,
        s,
        crate::rect::clamp_i32(at.x1 + p.offset.0) as i32,
        crate::rect::clamp_i32(at.y1 + p.offset.1) as i32,
        MAX_SUBSURFACE_DEPTH as nat,
    );
    if !WlSurface::shifted(p) {
        assert forall|i: int| 0 <= i < sc.surfaces.len() implies crate::ifs::wl_surface::tree::moved(
            #[trigger] sc.surfaces[i],
            sc.surfaces[i],
        ) by {}
    }
}

pub proof fn lemma_extents_keep_queues(sc: Scene, s: usize, fuel: nat)
    ensures
        extents_recalculated(sc, s, fuel).pending == sc.pending,
        extents_recalculated(sc, s, fuel).commit_timelines == sc.commit_timelines,
        extents_recalculated(sc, s, fuel).live_buffers == sc.live_buffers,
        extents_recalculated(sc, s, fuel).render_ctx == sc.render_ctx,
        extents_recalculated(sc, s, fuel).cursors == sc.cursors,
    decreases fuel,
{
    if s < sc.surfaces.len() {
        let old = sc.surfaces[s as int];
        let ext = crate::ifs::wl_surface::tree::extents_of(sc.surfaces, s, sc.surfaces.len() as int);
        let sc1 = crate::ifs::wl_surface::tree::extents_stored(sc, s);
        if old.extents != ext {
            match old.ext {
                SurfaceExt::Subsurface(sub) => {
                    if fuel > 0 {
                        lemma_extents_keep_queues(sc1, sub.parent, (fuel - 1) as nat);
                    }
                },
                _ => {},
            }
        }
    }
}

pub proof fn lemma_visibility_keeps_queues(sc: Scene, s: usize, visible: bool, fuel: nat)
    ensures
        crate::ifs::wl_surface::tree::visibility_set(sc, s, visible, fuel).pending == sc.pending,
        crate::ifs::wl_surface::tree::visibility_set(sc, s, visible, fuel).commit_timelines
            == sc.commit_timelines,
        crate::ifs::wl_surface::tree::visibility_set(sc, s, visible, fuel).live_buffers
            == sc.live_buffers,
        crate::ifs::wl_surface::tree::visibility_set(sc, s, visible, fuel).render_ctx
            == sc.render_ctx,
    decreases fuel, sc.surfaces.len() + 1,
{
    if !(s >= sc.surfaces.len() || sc.surfaces[s as int].visible == visible) {
        let old = sc.surfaces[s as int];
        let sc1 = Scene {
            surfaces: sc.surfaces.update(s as int, WlSurface { visible, ..old }),
            events: sc.events.push(Event::VisibilityChanged { surface: s, visible }),
            ..sc
        };
        lemma_visibility_children_keep_queues(sc1, s, visible, 0, sc1.surfaces.len() as int, fuel);
    }
}

pub proof fn lemma_visibility_children_keep_queues(
    sc: Scene,
    s: usize,
    visible: bool,
    i: int,
    n: int,
    fuel: nat,
)
    ensures
        crate::ifs::wl_surface::tree::visibility_set_children(sc, s, visible, i, n, fuel).pending
            == sc.pending,
        crate::ifs::wl_surface::tree::visibility_set_children(
            sc,
            s,
            visible,
            i,
            n,
            fuel,
        ).commit_timelines == sc.commit_timelines,
        crate::ifs::wl_surface::tree::visibility_set_children(
            sc,
            s,
            visible,
            i,
            n,
            fuel,
        ).live_buffers == sc.live_buffers,
        crate::ifs::wl_surface::tree::visibility_set_children(sc, s, visible, i, n, fuel).render_ctx
            == sc.render_ctx,
    decreases fuel, n - i,
{
    if 0 <= i < n {
        if fuel > 0 && i <= usize::MAX && crate::ifs::wl_surface::tree::is_child_of(
            sc.surfaces,
            i,
            s,
        ) {
            lemma_visibility_keeps_queues(sc, i as usize, visible, (fuel - 1) as nat);
            lemma_visibility_children_keep_queues(
                crate::ifs::wl_surface::tree::visibility_set(sc, i as usize, visible, (fuel - 1) as nat),
                s,
                visible,
                i + 1,
                n,
                fuel,
            );
        } else {
            lemma_visibility_children_keep_queues(sc, s, visible, i + 1, n, fuel);
        }
    }
}

/// The last look of a subsurface at a commit leaves the accumulators, the
/// timelines and the number of surfaces as they are.
pub proof fn lemma_after_apply_keeps_queues(sc: Scene, s: usize)
    requires
        s < sc.surfaces.len(),
    ensures
        subsurface_after_apply(sc, s).pending == sc.pending,
        subsurface_after_apply(sc, s).commit_timelines == sc.commit_timelines,
        subsurface_after_apply(sc, s).surfaces.len() == sc.surfaces.len(),
        subsurface_after_apply(sc, s).live_buffers == sc.live_buffers,
        subsurface_after_apply(sc, s).render_ctx == sc.render_ctx,
{
    match sc.surfaces[s as int].ext {
        SurfaceExt::Subsurface(sub) => {
            let old = sc.surfaces[s as int];
            let has_buffer = old.buffer is Some;
            let sc1 = Scene {
                surfaces: sc.surfaces.update(
                    s as int,
                    WlSurface {
                        ext: SurfaceExt::Subsurface(WlSubsurface { had_buffer: has_buffer, ..sub }),
                        ..old
                    },
                ),
                ..sc
            };
            lemma_visibility_keeps_queues(sc1, s, false, MAX_SUBSURFACE_DEPTH as nat);
            lemma_visibility_keeps_queues(sc1, s, true, MAX_SUBSURFACE_DEPTH as nat);
            lemma_visibility_len(sc1, s, false, MAX_SUBSURFACE_DEPTH as nat);
            lemma_visibility_len(sc1, s, true, MAX_SUBSURFACE_DEPTH as nat);
        },
        _ => {},
    }
}

pub proof fn lemma_consequences_keep_queues(sc: Scene, s: usize, p: PendingState)
    requires
        s < sc.surfaces.len(),
    ensures
        consequences_applied(sc, s, p).pending == sc.pending,
        consequences_applied(sc, s, p).commit_timelines == sc.commit_timelines,
        consequences_applied(sc, s, p).surfaces.len() == sc.surfaces.len(),
        consequences_applied(sc, s, p).live_buffers == sc.live_buffers,
        consequences_applied(sc, s, p).render_ctx == sc.render_ctx,
{
    lemma_extents_len(sc, s, MAX_SUBSURFACE_DEPTH as nat);
    lemma_extents_keep_queues(sc, s, MAX_SUBSURFACE_DEPTH as nat);
    let sc5 = if sc.surfaces[s as int].need_extents_update {
        extents_recalculated(sc, s, MAX_SUBSURFACE_DEPTH as nat)
    } else {
        sc
    };
    let sc6 = if p.buffer is Some || WlSurface::geometry_changed(p) {
        Scene {
            events: sc5.events + cursor_events(sc5.cursors, s, sc5.cursors.len() as int),
            ..sc5
        }
    } else {
        sc5
    };
    lemma_after_apply_keeps_queues(sc6, s);
}

} // verus!
