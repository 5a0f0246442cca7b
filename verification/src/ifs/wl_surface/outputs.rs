//! What a surface tells its client about the output that shows it.

use vstd::prelude::*;
use crate::client::{Client, Event, Scene};
use crate::gfx_api::{BufferResvUser, SyncFile};
use crate::ifs::wl_output::Scale;
use crate::ifs::wl_surface::cursor::CursorSurface;
use crate::ifs::wl_surface::tree::is_child_of;
use crate::ifs::wl_surface::wl_subsurface::MAX_SUBSURFACE_DEPTH;
use crate::ifs::wl_surface::{
    BufferFence, SurfaceExt, SurfaceRole, WlSurface, WlSurfaceError, BUFFER_SCALE_SINCE,
    TRANSFORM_SINCE,
};
use crate::transform::Transform;

verus! {

/// What a surface needs to know of an output.
#[derive(Copy, Clone, Debug, PartialEq, Eq, Structural)]
pub struct OutputState {
    pub id: u32,
    pub scale: Scale,
    /// The smallest integer scale that is not below the scale.
    pub legacy_scale: u32,
    pub transform: Transform,
}

impl OutputState {
    /// The output of a surface that is not shown anywhere.
    pub open spec fn spec_dummy() -> OutputState {
        OutputState { id: 0, scale: Scale(120), legacy_scale: 1, transform: Transform::Normal }
    }

    pub fn dummy() -> (r: OutputState)
        ensures
            r == OutputState::spec_dummy(),
    {
        OutputState { id: 0, scale: Scale(120), legacy_scale: 1, transform: Transform::Normal }
    }
}

/// What a visitor tells the surfaces that it visits.
#[derive(Copy, Clone, Debug, PartialEq, Eq, Structural)]
pub enum Preference {
    Scale,
    Transform,
}

/// What a surface tells its client of the preference, if its version has the event.
pub open spec fn preference_events(surface: WlSurface, s: usize, what: Preference) -> Seq<Event> {
    match what {
        Preference::Scale => if surface.version >= BUFFER_SCALE_SINCE {
            seq![Event::PreferredBufferScale { surface: s, factor: surface.output.legacy_scale }]
        } else {
            seq![]
        },
        Preference::Transform => if surface.version >= TRANSFORM_SINCE {
            seq![
                Event::PreferredBufferTransform {
                    surface: s,
                    transform: surface.output.transform.spec_to_wl() as i32,
                },
            ]
        } else {
            seq![]
        },
    }
}

/// What the surface at `s` and the surfaces below it tell their clients of the
/// preference, each surface before its children.
pub open spec fn announced(surfaces: Seq<WlSurface>, s: usize, what: Preference, fuel: nat) -> Seq<
    Event,
>
    decreases fuel, surfaces.len() + 1,
{
    if s >= surfaces.len() {
        seq![]
    } else {
        preference_events(surfaces[s as int], s, what) + announced_children(
            surfaces,
            s,
            what,
            surfaces.len() as int,
            fuel,
        )
    }
}

/// What the children of the surface at `s` among the first `n` surfaces and the
/// surfaces below them tell their clients.
pub open spec fn announced_children(
    surfaces: Seq<WlSurface>,
    s: usize,
    what: Preference,
    n: int,
    fuel: nat,
) -> Seq<Event>
    decreases fuel, n,
{
    if n <= 0 || n > surfaces.len() {
        seq![]
    } else {
        announced_children(surfaces, s, what, n - 1, fuel) + (if fuel > 0 && is_child_of(
            surfaces,
            n - 1,
            s,
        ) {
            announced(surfaces, (n - 1) as usize, what, (fuel - 1) as nat)
        } else {
            seq![]
        })
    }
}

/// Lets the surface at `s` and the surfaces below it tell their clients of the preference.
pub fn announce(client: &mut Client, s: usize, what: Preference, fuel: u32)
    ensures
        final(client)@ == (Scene {
            events: old(client)@.events + announced(old(client)@.surfaces, s, what, fuel as nat),
            ..old(client)@
        }),
    decreases fuel, old(client)@.surfaces.len() + 1,
{
    if s >= client.surfaces.len() {
        assert(client@.events =~= old(client)@.events + Seq::<Event>::empty());
        return ;
    }
    match what {
        Preference::Scale => {
            WlSurface::send_preferred_buffer_scale(client, s);
        },
        Preference::Transform => {
            WlSurface::send_preferred_buffer_transform(client, s);
        },
    }
    let ghost own = client@.events;
    let n: usize = client.surfaces.len();
    let mut i: usize = 0;
    assert(own =~= own + announced_children(old(client)@.surfaces, s, what, 0, fuel as nat));
    while i < n
        invariant
            0 <= i <= n,
            n == client@.surfaces.len(),
            s < n,
            client@ == (Scene { events: client@.events, ..old(client)@ }),
            client@.events == own + announced_children(
                old(client)@.surfaces,
                s,
                what,
                i as int,
                fuel as nat,
            ),
        decreases n - i,
    {
        let ghost before = client@.events;
        if fuel > 0 && i != s {
            match client.surfaces[i].ext {
                SurfaceExt::Subsurface(sub) => {
                    if sub.parent == s {
                        announce(client, i, what, fuel - 1);
                    }
                },
                _ => {},
            }
        }
        assert(client@.events =~= own + announced_children(
            old(client)@.surfaces,
            s,
            what,
            i as int + 1,
            fuel as nat,
        ));
        i += 1;
    }
    assert(client@.events =~= old(client)@.events + announced(
        old(client)@.surfaces,
        s,
        what,
        fuel as nat,
    ));
}

/// Tells the surfaces that it visits of the scale of their output.
pub struct SurfaceSendPreferredScaleVisitor;

impl SurfaceSendPreferredScaleVisitor {
    pub fn visit_surface(&mut self, client: &mut Client, s: usize)
        ensures
            final(client)@ == (Scene {
                events: old(client)@.events + announced(
                    old(client)@.surfaces,
                    s,
                    Preference::Scale,
                    MAX_SUBSURFACE_DEPTH as nat,
                ),
                ..old(client)@
            }),
    {
        announce(client, s, Preference::Scale, MAX_SUBSURFACE_DEPTH);
    }
}

/// Tells the surfaces that it visits of the transform of their output.
pub struct SurfaceSendPreferredTransformVisitor;

impl SurfaceSendPreferredTransformVisitor {
    pub fn visit_surface(&mut self, client: &mut Client, s: usize)
        ensures
            final(client)@ == (Scene {
                events: old(client)@.events + announced(
                    old(client)@.surfaces,
                    s,
                    Preference::Transform,
                    MAX_SUBSURFACE_DEPTH as nat,
                ),
                ..old(client)@
            }),
    {
        announce(client, s, Preference::Transform, MAX_SUBSURFACE_DEPTH);
    }
}

/// What a surface tells its client when it moves to another output: that it entered
/// the new one and left the old one, and of the scale and the transform where they differ.
pub open spec fn output_events(surface: WlSurface, s: usize, output: OutputState) -> Seq<Event> {
    let moved = WlSurface { output, ..surface };
    seq![
        Event::Enter { surface: s, output: output.id },
        Event::Leave { surface: s, output: surface.output.id },
    ] + (if surface.output.scale != output.scale {
        preference_events(moved, s, Preference::Scale)
    } else {
        seq![]
    }) + (if surface.output.transform != output.transform {
        preference_events(moved, s, Preference::Transform)
    } else {
        seq![]
    })
}

/// The scene after the surface at `s` was put on an output. A surface that moves
/// to another output takes the surfaces below it along.
pub open spec fn output_set(sc: Scene, s: usize, output: OutputState, fuel: nat) -> Scene
    decreases fuel, sc.surfaces.len() + 1,
{
    if s >= sc.surfaces.len() {
        sc
    } else {
        let old = sc.surfaces[s as int];
        let sc1 = Scene { surfaces: sc.surfaces.update(s as int, WlSurface { output, ..old }), ..sc };
        if old.output.id == output.id {
            sc1
        } else {
            output_set_children(
                Scene { events: sc1.events + output_events(old, s, output), ..sc1 },
                s,
                output,
                0,
                sc1.surfaces.len() as int,
                fuel,
            )
        }
    }
}

pub open spec fn output_set_children(
    sc: Scene,
    s: usize,
    output: OutputState,
    i: int,
    n: int,
    fuel: nat,
) -> Scene
    decreases fuel, n - i,
{
    if i < 0 || i >= n {
        sc
    } else {
        let next = if fuel > 0 && i <= usize::MAX && is_child_of(sc.surfaces, i, s) {
            output_set(sc, i as usize, output, (fuel - 1) as nat)
        } else {
            sc
        };
        output_set_children(next, s, output, i + 1, n, fuel)
    }
}

/// The scene after the surface at `s` itself was put on an output.
pub open spec fn output_changed(sc: Scene, s: usize, output: OutputState) -> Scene {
    let old = sc.surfaces[s as int];
    let sc1 = Scene { surfaces: sc.surfaces.update(s as int, WlSurface { output, ..old }), ..sc };
    if old.output.id == output.id {
        sc1
    } else {
        Scene { events: sc1.events + output_events(old, s, output), ..sc1 }
    }
}

/// What a surface tells its client when it moves to another output.
pub fn events_of_move(surface: &WlSurface, s: usize, output: OutputState) -> (r: Vec<Event>)
    ensures
        r@ == output_events(*surface, s, output),
{
    let mut events: Vec<Event> = Vec::new();
    events.push(Event::Enter { surface: s, output: output.id });
    events.push(Event::Leave { surface: s, output: surface.output.id });
    if surface.output.scale != output.scale && surface.version >= BUFFER_SCALE_SINCE {
        events.push(Event::PreferredBufferScale { surface: s, factor: output.legacy_scale });
    }
    if surface.output.transform != output.transform && surface.version >= TRANSFORM_SINCE {
        events.push(
            Event::PreferredBufferTransform { surface: s, transform: output.transform.to_wl() },
        );
    }
    assert(events@ =~= output_events(*surface, s, output));
    events
}

/// Puts the surface at `s` itself on an output; says whether that is another output
/// than before.
pub fn change_output(client: &mut Client, s: usize, output: OutputState) -> (r: bool)
    requires
        s < old(client)@.surfaces.len(),
    ensures
        final(client)@ == output_changed(old(client)@, s, output),
        r == (old(client)@.surfaces[s as int].output.id != output.id),
        final(client)@.surfaces.len() == old(client)@.surfaces.len(),
        old(client).wf() ==> final(client).wf(),
{
    let changed = client.surfaces[s].output.id != output.id;
    if changed {
        let mut events = events_of_move(&client.surfaces[s], s, output);
        client.events.append(&mut events);
    }
    let surface = &mut client.surfaces[s];
    surface.output = output;
    proof {
        if old(client).wf() {
            assert forall|i: int| 0 <= i < client@.surfaces.len() implies (
            #[trigger] client@.surfaces[i]).wf() by {
                assert(old(client)@.surfaces[i].wf());
            }
        }
    }
    changed
}

pub fn set_output_below(client: &mut Client, s: usize, output: OutputState, fuel: u32)
    ensures
        final(client)@ == output_set(old(client)@, s, output, fuel as nat),
        final(client)@.surfaces.len() == old(client)@.surfaces.len(),
        old(client).wf() ==> final(client).wf(),
    decreases fuel, old(client)@.surfaces.len() + 1,
{
    if s >= client.surfaces.len() {
        return ;
    }
    if !change_output(client, s, output) {
        return ;
    }
    let ghost start = client@;
    let n: usize = client.surfaces.len();
    let mut i: usize = 0;
    while i < n
        invariant
            0 <= i <= n,
            n == client@.surfaces.len(),
            n == start.surfaces.len(),
            s < n,
            old(client).wf() ==> client.wf(),
            output_set_children(client@, s, output, i as int, n as int, fuel as nat)
                == output_set_children(start, s, output, 0, n as int, fuel as nat),
        decreases n - i,
    {
        if fuel > 0 && i != s {
            match client.surfaces[i].ext {
                SurfaceExt::Subsurface(sub) => {
                    if sub.parent == s {
                        set_output_below(client, i, output, fuel - 1);
                    }
                },
                _ => {},
            }
        }
        i += 1;
    }
}

/// The fences among the first `n` with the fence of one reader of the buffer of a
/// surface replaced.
pub open spec fn fence_replaced(
    fences: Seq<BufferFence>,
    surface: usize,
    user: BufferResvUser,
    sync_file: SyncFile,
    n: int,
) -> Seq<BufferFence>
    decreases n,
{
    if n <= 0 || n > fences.len() {
        seq![]
    } else if fences[n - 1].surface == surface && fences[n - 1].user == user {
        fence_replaced(fences, surface, user, sync_file, n - 1).push(
            BufferFence { surface, user, sync_file },
        )
    } else {
        fence_replaced(fences, surface, user, sync_file, n - 1).push(fences[n - 1])
    }
}

/// Whether one of the first `n` fences is held by the reader on the buffer of the surface.
pub open spec fn holds_fence(fences: Seq<BufferFence>, surface: usize, user: BufferResvUser, n: int) -> bool
    decreases n,
{
    if n <= 0 || n > fences.len() {
        false
    } else {
        (fences[n - 1].surface == surface && fences[n - 1].user == user) || holds_fence(
            fences,
            surface,
            user,
            n - 1,
        )
    }
}

/// Whether one of the first `n` cursors shows the surface for the seat.
pub open spec fn has_cursor(cursors: Seq<CursorSurface>, s: usize, seat: u32, n: int) -> bool
    decreases n,
{
    if n <= 0 || n > cursors.len() {
        false
    } else {
        (cursors[n - 1].surface == s && cursors[n - 1].seat == seat) || has_cursor(
            cursors,
            s,
            seat,
            n - 1,
        )
    }
}

impl WlSurface {
    /// Tells the client the integer scale that suits the surface best, if the
    /// version of the surface has the event.
    pub fn send_preferred_buffer_scale(client: &mut Client, s: usize)
        requires
            s < old(client)@.surfaces.len(),
        ensures
            final(client)@ == (Scene {
                events: old(client)@.events + preference_events(
                    old(client)@.surfaces[s as int],
                    s,
                    Preference::Scale,
                ),
                ..old(client)@
            }),
    {
        if client.surfaces[s].version >= BUFFER_SCALE_SINCE {
            let factor = client.surfaces[s].output.legacy_scale;
            client.events.push(Event::PreferredBufferScale { surface: s, factor });
        }
        assert(client@.events =~= old(client)@.events + preference_events(
            old(client)@.surfaces[s as int],
            s,
            Preference::Scale,
        ));
    }

    /// Tells the client the transform that suits the surface best, if the version
    /// of the surface has the event.
    pub fn send_preferred_buffer_transform(client: &mut Client, s: usize)
        requires
            s < old(client)@.surfaces.len(),
        ensures
            final(client)@ == (Scene {
                events: old(client)@.events + preference_events(
                    old(client)@.surfaces[s as int],
                    s,
                    Preference::Transform,
                ),
                ..old(client)@
            }),
    {
        if client.surfaces[s].version >= TRANSFORM_SINCE {
            let transform = client.surfaces[s].output.transform.to_wl();
            client.events.push(Event::PreferredBufferTransform { surface: s, transform });
        }
        assert(client@.events =~= old(client)@.events + preference_events(
            old(client)@.surfaces[s as int],
            s,
            Preference::Transform,
        ));
    }

    pub fn send_enter(client: &mut Client, s: usize, output: u32)
        ensures
            final(client)@ == (Scene {
                events: old(client)@.events.push(Event::Enter { surface: s, output }),
                ..old(client)@
            }),
    {
        client.events.push(Event::Enter { surface: s, output });
    }

    pub fn send_leave(client: &mut Client, s: usize, output: u32)
        ensures
            final(client)@ == (Scene {
                events: old(client)@.events.push(Event::Leave { surface: s, output }),
                ..old(client)@
            }),
    {
        client.events.push(Event::Leave { surface: s, output });
    }

    /// Puts the surface on an output.
    pub fn set_output(client: &mut Client, s: usize, output: OutputState)
        ensures
            final(client)@ == output_set(old(client)@, s, output, MAX_SUBSURFACE_DEPTH as nat),
            old(client).wf() ==> final(client).wf(),
    {
        set_output_below(client, s, output, MAX_SUBSURFACE_DEPTH);
    }

    /// A reader holds a fence on the buffer that the surface shows. Each reader
    /// holds one fence at most: a new one takes the place of the old one.
    pub fn set_sync_file(client: &mut Client, s: usize, user: BufferResvUser, sync_file: SyncFile)
        ensures
            final(client)@ == (Scene {
                sync_files: if holds_fence(
                    old(client)@.sync_files,
                    s,
                    user,
                    old(client)@.sync_files.len() as int,
                ) {
                    fence_replaced(
                        old(client)@.sync_files,
                        s,
                        user,
                        sync_file,
                        old(client)@.sync_files.len() as int,
                    )
                } else {
                    old(client)@.sync_files.push(BufferFence { surface: s, user, sync_file })
                },
                ..old(client)@
            }),
    {
        let mut found = false;
        let mut i: usize = 0;
        while i < client.sync_files.len()
            invariant
                0 <= i <= client.sync_files.len(),
                client.sync_files@.len() == old(client).sync_files@.len(),
                client@ == (Scene { sync_files: client.sync_files@, ..old(client)@ }),
                found == holds_fence(old(client).sync_files@, s, user, i as int),
                forall|j: int| i <= j < client.sync_files@.len() ==> client.sync_files@[j] == old(
                    client,
                ).sync_files@[j],
                client.sync_files@.subrange(0, i as int) == fence_replaced(
                    old(client).sync_files@,
                    s,
                    user,
                    sync_file,
                    i as int,
                ),
                !found ==> client.sync_files@ == old(client).sync_files@,
            decreases client.sync_files.len() - i,
        {
            let ghost before = client.sync_files@;
            if client.sync_files[i].surface == s && client.sync_files[i].user == user {
                let f = &mut client.sync_files[i];
                f.sync_file = sync_file;
                found = true;
            }
            proof {
                let now = client.sync_files@;
                assert(now.subrange(0, i as int + 1) =~= before.subrange(0, i as int).push(
                    now[i as int],
                ));
            }
            i += 1;
        }
        assert(client.sync_files@.subrange(0, i as int) =~= client.sync_files@);
        if !found {
            client.sync_files.push(BufferFence { surface: s, user, sync_file });
        }
    }

    /// Makes the surface the cursor of a seat, unless it is that already.
    #[verifier::loop_isolation(false)]
    pub fn get_cursor(client: &mut Client, s: usize, seat: u32) -> (r: Result<(), WlSurfaceError>)
        requires
            old(client).wf(),
            s < old(client)@.surfaces.len(),
        ensures
            final(client).wf(),
            ({
                let sc = old(client)@;
                let surface = sc.surfaces[s as int];
                if has_cursor(sc.cursors, s, seat, sc.cursors.len() as int) {
                    r.is_ok() && final(client)@ == sc
                } else if surface.role != SurfaceRole::Unassigned && surface.role
                    != SurfaceRole::Cursor {
                    r == Err::<(), WlSurfaceError>(
                        WlSurfaceError::IncompatibleRole {
                            id: surface.id,
                            old: surface.role,
                            new: SurfaceRole::Cursor,
                        },
                    ) && final(client)@ == sc
                } else {
                    r.is_ok() && final(client)@ == (Scene {
                        surfaces: sc.surfaces.update(
                            s as int,
                            WlSurface { role: SurfaceRole::Cursor, ..surface },
                        ),
                        cursors: sc.cursors.push(
                            CursorSurface { surface: s, seat, hotspot_x: 0, hotspot_y: 0 },
                        ),
                        events: sc.events.push(Event::CursorChanged { surface: s, seat }),
                        ..sc
                    })
                }
            }),
    {
        let mut i: usize = 0;
        while i < client.cursors.len()
            invariant
                0 <= i <= client.cursors.len(),
                client@ == old(client)@,
                !has_cursor(client.cursors@, s, seat, i as int),
            decreases client.cursors.len() - i,
        {
            if client.cursors[i].surface == s && client.cursors[i].seat == seat {
                proof {
                    lemma_has_cursor_from(client.cursors@, s, seat, i as int, client.cursors@.len() as int);
                }
                return Ok(());
            }
            i += 1;
        }
        assert(old(client)@.surfaces[s as int].wf());
        let surface = &mut client.surfaces[s];
        match surface.set_role(SurfaceRole::Cursor) {
            Err(e) => {
                assert(client@.surfaces =~= old(client)@.surfaces);
                return Err(e);
            },
            Ok(()) => {},
        }
        client.cursors.push(CursorSurface::new(s, seat));
        client.events.push(Event::CursorChanged { surface: s, seat });
        proof {
            assert forall|i: int| 0 <= i < client@.surfaces.len() implies (
            #[trigger] client@.surfaces[i]).wf() by {
                assert(old(client)@.surfaces[i].wf());
            }
        }
        Ok(())
    }
}

pub proof fn lemma_has_cursor_from(cursors: Seq<CursorSurface>, s: usize, seat: u32, i: int, n: int)
    requires
        0 <= i < n <= cursors.len(),
        cursors[i].surface == s,
        cursors[i].seat == seat,
    ensures
        has_cursor(cursors, s, seat, n),
    decreases n,
{
    if i < n - 1 {
        lemma_has_cursor_from(cursors, s, seat, i, n - 1);
    }
}

} // verus!
