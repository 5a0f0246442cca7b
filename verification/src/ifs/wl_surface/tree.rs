//! What reaches from one surface to the surfaces above and below it: positions go
//! down to the children, bounding rectangles and visibility follow the tree.
//!
//! The children of a surface are the surfaces whose role object names it as their
//! parent. No walk goes deeper than `MAX_SUBSURFACE_DEPTH` levels.

use vstd::prelude::*;
use crate::client::{Client, Event, Scene};
use crate::ifs::wl_surface::wl_subsurface::MAX_SUBSURFACE_DEPTH;
use crate::ifs::wl_surface::{SurfaceExt, WlSurface};
use crate::rect::{clamp_i32, sat_add, Rect};

verus! {

/// Whether the surface at `c` is a child of the surface at `s`.
pub open spec fn is_child_of(surfaces: Seq<WlSurface>, c: int, s: usize) -> bool {
    &&& 0 <= c < surfaces.len()
    &&& c != s
    &&& surfaces[c].ext matches SurfaceExt::Subsurface(sub)
    &&& sub.parent == s
}

/// The bounding rectangle of a surface and those of its children that are among the
/// first `n` surfaces: the rectangle of the surface itself at the origin, joined with
/// the bounding rectangle of each child that has one, moved to where the child lies.
pub open spec fn extents_of(surfaces: Seq<WlSurface>, s: usize, n: int) -> Rect
    decreases n,
{
    if n <= 0 || n > surfaces.len() {
        surfaces[s as int].buffer_abs_pos.spec_at_point(0, 0)
    } else {
        let prev = extents_of(surfaces, s, n - 1);
        let c = surfaces[n - 1];
        if is_child_of(surfaces, n - 1, s) && !c.extents.spec_is_empty() {
            let pos = c.ext->Subsurface_0.position;
            let ce = c.extents.spec_move(pos.x1 as int, pos.y1 as int);
            if prev.spec_is_empty() {
                ce
            } else {
                prev.spec_union(ce)
            }
        } else {
            prev
        }
    }
}

/// The rectangle of a child in its parent after the bounding rectangle of the child
/// changed: at the same place, with the size of the bounding rectangle.
pub open spec fn resized_position(position: Rect, extents: Rect) -> Rect {
    if extents.spec_width() >= 0 && extents.spec_height() >= 0 {
        Rect::spec_sized(position.x1, position.y1, extents.spec_width(), extents.spec_height())
    } else {
        position
    }
}

/// The scene after the bounding rectangle of the surface at `s` was computed and
/// stored. A subsurface whose bounding rectangle changed takes its size for the
/// rectangle that it covers in its parent.
pub open spec fn extents_stored(sc: Scene, s: usize) -> Scene {
    let old = sc.surfaces[s as int];
    let ext = extents_of(sc.surfaces, s, sc.surfaces.len() as int);
    Scene {
        surfaces: sc.surfaces.update(
            s as int,
            WlSurface {
                extents: ext,
                need_extents_update: false,
                ext: match old.ext {
                    SurfaceExt::Subsurface(sub) => if old.extents != ext {
                        SurfaceExt::Subsurface(
                            crate::ifs::wl_surface::wl_subsurface::WlSubsurface {
                                position: resized_position(sub.position, ext),
                                ..sub
                            },
                        )
                    } else {
                        old.ext
                    },
                    _ => old.ext,
                },
                ..old
            },
        ),
        ..sc
    }
}

/// The scene after the bounding rectangle of a surface was computed anew. Where it
/// changed, the surface above a subsurface computes its own anew in turn, and the
/// role object of any other surface is told.
pub open spec fn extents_recalculated(sc: Scene, s: usize, fuel: nat) -> Scene
    decreases fuel,
{
    if s >= sc.surfaces.len() {
        sc
    } else {
        let old = sc.surfaces[s as int];
        let ext = extents_of(sc.surfaces, s, sc.surfaces.len() as int);
        let sc1 = extents_stored(sc, s);
        if old.extents == ext {
            sc1
        } else {
            match old.ext {
                SurfaceExt::Subsurface(sub) => if fuel > 0 {
                    extents_recalculated(sc1, sub.parent, (fuel - 1) as nat)
                } else {
                    sc1
                },
                SurfaceExt::Absent(_) => sc1,
                SurfaceExt::Other => Scene {
                    events: sc1.events.push(Event::ExtentsChanged { surface: s }),
                    ..sc1
                },
            }
        }
    }
}

/// The surfaces after the surface at `s` was put at `(x, y)` and each surface below
/// it where its position relative to its parent says.
pub open spec fn positioned(surfaces: Seq<WlSurface>, s: usize, x: i32, y: i32, fuel: nat) -> Seq<
    WlSurface,
>
    decreases fuel, surfaces.len() + 1,
{
    if s >= surfaces.len() {
        surfaces
    } else {
        let old = surfaces[s as int];
        let moved = surfaces.update(
            s as int,
            WlSurface { buffer_abs_pos: old.buffer_abs_pos.spec_at_point(x, y), ..old },
        );
        positioned_children(moved, s, x, y, 0, moved.len() as int, fuel)
    }
}

/// The surfaces after the children of the surface at `s` that are among the
/// surfaces from `i` up to `n` were put in their places.
pub open spec fn positioned_children(
    surfaces: Seq<WlSurface>,
    s: usize,
    x: i32,
    y: i32,
    i: int,
    n: int,
    fuel: nat,
) -> Seq<WlSurface>
    decreases fuel, n - i,
{
    if i < 0 || i >= n {
        surfaces
    } else {
        let next = if fuel > 0 && i <= usize::MAX && is_child_of(surfaces, i, s) {
            let pos = surfaces[i].ext->Subsurface_0.position;
            positioned(
                surfaces,
                i as usize,
                clamp_i32(x + pos.x1) as i32,
                clamp_i32(y + pos.y1) as i32,
                (fuel - 1) as nat,
            )
        } else {
            surfaces
        };
        positioned_children(next, s, x, y, i + 1, n, fuel)
    }
}

/// The surfaces after the surface at `s` and every surface below it were made
/// visible or invisible, with a notice for each surface that changed.
pub open spec fn visibility_set(
    sc: Scene,
    s: usize,
    visible: bool,
    fuel: nat,
) -> Scene
    decreases fuel, sc.surfaces.len() + 1,
{
    if s >= sc.surfaces.len() || sc.surfaces[s as int].visible == visible {
        sc
    } else {
        let old = sc.surfaces[s as int];
        let sc1 = Scene {
            surfaces: sc.surfaces.update(s as int, WlSurface { visible, ..old }),
            events: sc.events.push(Event::VisibilityChanged { surface: s, visible }),
            ..sc
        };
        visibility_set_children(sc1, s, visible, 0, sc1.surfaces.len() as int, fuel)
    }
}

pub open spec fn visibility_set_children(
    sc: Scene,
    s: usize,
    visible: bool,
    i: int,
    n: int,
    fuel: nat,
) -> Scene
    decreases fuel, n - i,
{
    if i < 0 || i >= n {
        sc
    } else {
        let next = if fuel > 0 && i <= usize::MAX && is_child_of(sc.surfaces, i, s) {
            visibility_set(sc, i as usize, visible, (fuel - 1) as nat)
        } else {
            sc
        };
        visibility_set_children(next, s, visible, i + 1, n, fuel)
    }
}

/// Whether `b` is `a` shown at another place.
pub open spec fn moved(a: WlSurface, b: WlSurface) -> bool {
    &&& (WlSurface { buffer_abs_pos: a.buffer_abs_pos, ..b }) == a
    &&& a.buffer_abs_pos.wf() ==> b.buffer_abs_pos.wf()
}

/// Whether `b` holds the surfaces of `a`, each one shown where it was or elsewhere.
pub open spec fn moved_only(a: Seq<WlSurface>, b: Seq<WlSurface>) -> bool {
    &&& a.len() == b.len()
    &&& forall|i: int| 0 <= i < a.len() ==> moved(#[trigger] a[i], b[i])
}

pub proof fn lemma_moved_only_trans(a: Seq<WlSurface>, b: Seq<WlSurface>, c: Seq<WlSurface>)
    requires
        moved_only(a, b),
        moved_only(b, c),
    ensures
        moved_only(a, c),
{
    assert forall|i: int| 0 <= i < a.len() implies moved(#[trigger] a[i], c[i]) by {
        assert(moved(a[i], b[i]));
        assert(moved(b[i], c[i]));
    }
}

/// Putting surfaces in their places changes nothing but where their buffers are shown.
pub proof fn lemma_positioned_frame(surfaces: Seq<WlSurface>, s: usize, x: i32, y: i32, fuel: nat)
    ensures
        moved_only(surfaces, positioned(surfaces, s, x, y, fuel)),
    decreases fuel, surfaces.len() + 1,
{
    if s < surfaces.len() {
        let old = surfaces[s as int];
        let moved_s = surfaces.update(
            s as int,
            WlSurface { buffer_abs_pos: old.buffer_abs_pos.spec_at_point(x, y), ..old },
        );
        assert(moved_only(surfaces, moved_s)) by {
            assert forall|i: int| 0 <= i < surfaces.len() implies moved(
                #[trigger] surfaces[i],
                moved_s[i],
            ) by {}
        }
        lemma_positioned_children_frame(moved_s, s, x, y, 0, moved_s.len() as int, fuel);
        lemma_moved_only_trans(
            surfaces,
            moved_s,
            positioned_children(moved_s, s, x, y, 0, moved_s.len() as int, fuel),
        );
    } else {
        assert forall|i: int| 0 <= i < surfaces.len() implies moved(
            #[trigger] surfaces[i],
            surfaces[i],
        ) by {}
    }
}

pub proof fn lemma_positioned_children_frame(
    surfaces: Seq<WlSurface>,
    s: usize,
    x: i32,
    y: i32,
    i: int,
    n: int,
    fuel: nat,
)
    ensures
        moved_only(surfaces, positioned_children(surfaces, s, x, y, i, n, fuel)),
    decreases fuel, n - i,
{
    if 0 <= i < n {
        if fuel > 0 && i <= usize::MAX && is_child_of(surfaces, i, s) {
            let pos = surfaces[i].ext->Subsurface_0.position;
            let cx = clamp_i32(x + pos.x1) as i32;
            let cy = clamp_i32(y + pos.y1) as i32;
            let next = positioned(surfaces, i as usize, cx, cy, (fuel - 1) as nat);
            lemma_positioned_frame(surfaces, i as usize, cx, cy, (fuel - 1) as nat);
            lemma_positioned_children_frame(next, s, x, y, i + 1, n, fuel);
            lemma_moved_only_trans(
                surfaces,
                next,
                positioned_children(next, s, x, y, i + 1, n, fuel),
            );
        } else {
            lemma_positioned_children_frame(surfaces, s, x, y, i + 1, n, fuel);
        }
    } else {
        assert forall|k: int| 0 <= k < surfaces.len() implies moved(
            #[trigger] surfaces[k],
            surfaces[k],
        ) by {}
    }
}

/// The surfaces as they are, in the given places.
pub fn position_surface(surfaces: &mut Vec<WlSurface>, s: usize, x: i32, y: i32, fuel: u32)
    ensures
        final(surfaces)@ == positioned(old(surfaces)@, s, x, y, fuel as nat),
        final(surfaces)@.len() == old(surfaces)@.len(),
    decreases fuel, old(surfaces)@.len() + 1,
{
    proof {
        lemma_positioned_frame(surfaces@, s, x, y, fuel as nat);
    }
    if s >= surfaces.len() {
        return ;
    }
    let n: usize = surfaces.len();
    let surface = &mut surfaces[s];
    surface.buffer_abs_pos = surface.buffer_abs_pos.at_point(x, y);
    let ghost moved = surfaces@;
    let mut i: usize = 0;
    while i < n
        invariant
            0 <= i <= n,
            n == surfaces@.len(),
            n == moved.len(),
            s < n,
            positioned_children(surfaces@, s, x, y, i as int, n as int, fuel as nat)
                == positioned_children(moved, s, x, y, 0, n as int, fuel as nat),
        decreases n - i,
    {
        if fuel > 0 && i != s {
            match surfaces[i].ext {
                SurfaceExt::Subsurface(sub) => {
                    if sub.parent == s {
                        let cx: i32 = sat_add(x, sub.position.x1);
                        let cy: i32 = sat_add(y, sub.position.y1);
                        position_surface(surfaces, i, cx, cy, fuel - 1);
                    }
                },
                _ => {},
            }
        }
        i += 1;
    }
}

impl WlSurface {
    /// Puts the surface at `(x, y)` and each surface below it where its position
    /// relative to its parent says.
    pub fn set_absolute_position(client: &mut Client, s: usize, x: i32, y: i32)
        ensures
            final(client)@ == (Scene {
                surfaces: positioned(old(client)@.surfaces, s, x, y, MAX_SUBSURFACE_DEPTH as nat),
                ..old(client)@
            }),
            old(client).wf() ==> final(client).wf(),
    {
        proof {
            lemma_positioned_frame(client@.surfaces, s, x, y, MAX_SUBSURFACE_DEPTH as nat);
        }
        position_surface(&mut client.surfaces, s, x, y, MAX_SUBSURFACE_DEPTH);
        proof {
            let a = old(client)@.surfaces;
            let b = client@.surfaces;
            if old(client).wf() {
                assert forall|i: int| 0 <= i < b.len() implies (#[trigger] b[i]).wf() by {
                    assert(a[i].wf());
                    assert(moved(a[i], b[i]));
                }
            }
        }
    }

    /// The bounding rectangle of the surface and its children.
    pub fn compute_extents(client: &Client, s: usize) -> (r: Rect)
        requires
            s < client@.surfaces.len(),
        ensures
            r == extents_of(client@.surfaces, s, client@.surfaces.len() as int),
            client.wf() ==> r.wf(),
    {
        let mut extents = client.surfaces[s].buffer_abs_pos.at_point(0, 0);
        let mut i: usize = 0;
        while i < client.surfaces.len()
            invariant
                0 <= i <= client.surfaces.len(),
                s < client.surfaces.len(),
                extents == extents_of(client@.surfaces, s, i as int),
                client.wf() ==> extents.wf(),
            decreases client.surfaces.len() - i,
        {
            if i != s {
                match client.surfaces[i].ext {
                    SurfaceExt::Subsurface(sub) => {
                        if sub.parent == s {
                            let ce = client.surfaces[i].extents;
                            if !ce.is_empty() {
                                proof {
                                    if client.wf() {
                                        assert(client@.surfaces[i as int].wf());
                                    }
                                }
                                let ce = ce.move_(sub.position.x1, sub.position.y1);
                                extents = if extents.is_empty() {
                                    ce
                                } else {
                                    extents.union(ce)
                                };
                            }
                        }
                    },
                    _ => {},
                }
            }
            i += 1;
        }
        extents
    }

    /// Computes the bounding rectangle of the surface anew and, where it changed,
    /// lets the surfaces above follow.
    pub fn calculate_extents(client: &mut Client, s: usize)
        ensures
            final(client)@ == extents_recalculated(old(client)@, s, MAX_SUBSURFACE_DEPTH as nat),
            old(client).wf() ==> final(client).wf(),
    {
        calculate_extents_upto(client, s, MAX_SUBSURFACE_DEPTH);
    }

    /// Whether the surface is visible.
    pub fn node_visible(&self) -> (r: bool)
        ensures
            r == self.visible,
    {
        self.visible
    }

    pub fn node_absolute_position(&self) -> (r: Rect)
        ensures
            r == self.buffer_abs_pos,
    {
        self.buffer_abs_pos
    }

    /// Makes the surface and every surface below it visible or invisible.
    pub fn set_visible(client: &mut Client, s: usize, visible: bool)
        ensures
            final(client)@ == visibility_set(old(client)@, s, visible, MAX_SUBSURFACE_DEPTH as nat),
            old(client).wf() ==> final(client).wf(),
    {
        set_visible_upto(client, s, visible, MAX_SUBSURFACE_DEPTH);
    }
}

/// Computes the bounding rectangle of the surface at `s` and stores it; says
/// whether it changed.
pub fn store_extents(client: &mut Client, s: usize) -> (r: bool)
    requires
        s < old(client)@.surfaces.len(),
    ensures
        final(client)@ == extents_stored(old(client)@, s),
        r == (old(client)@.surfaces[s as int].extents != extents_of(
            old(client)@.surfaces,
            s,
            old(client)@.surfaces.len() as int,
        )),
        final(client)@.surfaces.len() == old(client)@.surfaces.len(),
        old(client).wf() ==> final(client).wf(),
{
    let extents = WlSurface::compute_extents(client, s);
    let changed = client.surfaces[s].extents != extents;
    let surface = &mut client.surfaces[s];
    surface.extents = extents;
    surface.need_extents_update = false;
    if changed {
        match surface.ext {
            SurfaceExt::Subsurface(sub) => {
                let width = extents.width();
                let height = extents.height();
                match Rect::new_sized(sub.position.x1, sub.position.y1, width, height) {
                    Some(position) => {
                        surface.ext = SurfaceExt::Subsurface(
                            crate::ifs::wl_surface::wl_subsurface::WlSubsurface { position, ..sub },
                        );
                    },
                    None => {},
                }
            },
            _ => {},
        }
    }
    proof {
        if old(client).wf() {
            assert forall|i: int| 0 <= i < client@.surfaces.len() implies (
            #[trigger] client@.surfaces[i]).wf() by {
                assert(old(client)@.surfaces[i].wf());
            }
        }
    }
    changed
}

pub fn calculate_extents_upto(client: &mut Client, s: usize, fuel: u32)
    ensures
        final(client)@ == extents_recalculated(old(client)@, s, fuel as nat),
        old(client).wf() ==> final(client).wf(),
    decreases fuel,
{
    if s >= client.surfaces.len() {
        return ;
    }
    let ext = client.surfaces[s].ext;
    if store_extents(client, s) {
        match ext {
            SurfaceExt::Subsurface(sub) => {
                if fuel > 0 {
                    calculate_extents_upto(client, sub.parent, fuel - 1);
                }
            },
            SurfaceExt::Absent(_) => {},
            SurfaceExt::Other => {
                client.events.push(Event::ExtentsChanged { surface: s });
            },
        }
    }
}

pub fn set_visible_upto(client: &mut Client, s: usize, visible: bool, fuel: u32)
    ensures
        final(client)@ == visibility_set(old(client)@, s, visible, fuel as nat),
        old(client).wf() ==> final(client).wf(),
        final(client)@.surfaces.len() == old(client)@.surfaces.len(),
    decreases fuel, old(client)@.surfaces.len() + 1,
{
    if s >= client.surfaces.len() {
        return ;
    }
    if client.surfaces[s].visible == visible {
        return ;
    }
    let n: usize = client.surfaces.len();
    let surface = &mut client.surfaces[s];
    surface.visible = visible;
    client.events.push(Event::VisibilityChanged { surface: s, visible });
    proof {
        if old(client).wf() {
            assert(old(client)@.surfaces[s as int].wf());
            assert(client.wf());
        }
    }
    let ghost start = client@;
    let mut i: usize = 0;
    while i < n
        invariant
            0 <= i <= n,
            n == client@.surfaces.len(),
            n == start.surfaces.len(),
            s < n,
            old(client).wf() ==> client.wf(),
            visibility_set_children(client@, s, visible, i as int, n as int, fuel as nat)
                == visibility_set_children(start, s, visible, 0, n as int, fuel as nat),
        decreases n - i,
    {
        if fuel > 0 && i != s {
            match client.surfaces[i].ext {
                SurfaceExt::Subsurface(sub) => {
                    if sub.parent == s {
                        set_visible_upto(client, i, visible, fuel - 1);
                    }
                },
                _ => {},
            }
        }
        i += 1;
    }
}

/// The bounding rectangle of a surface covers what each of its children covers:
/// every point of the bounding rectangle of a child, moved to where the child lies.
pub proof fn lemma_extents_cover_children(surfaces: Seq<WlSurface>, s: usize, n: int, c: int, x: int, y: int)
    requires
        s < surfaces.len(),
        0 <= c < n <= surfaces.len(),
        is_child_of(surfaces, c, s),
        surfaces[c].extents.spec_move(
            surfaces[c].ext->Subsurface_0.position.x1 as int,
            surfaces[c].ext->Subsurface_0.position.y1 as int,
        ).spec_contains(x, y),
        forall|i: int| 0 <= i < surfaces.len() ==> (#[trigger] surfaces[i]).extents.wf(),
    ensures
        extents_of(surfaces, s, n).spec_contains(x, y),
    decreases n,
{
    let pos = surfaces[c].ext->Subsurface_0.position;
    let moved_c = surfaces[c].extents.spec_move(pos.x1 as int, pos.y1 as int);
    assert(surfaces[c].extents.wf());
    assert(!surfaces[c].extents.spec_is_empty()) by {
        if surfaces[c].extents.spec_is_empty() {
            assert(moved_c.spec_is_empty());
        }
    }
    if c == n - 1 {
    } else {
        lemma_extents_cover_children(surfaces, s, n - 1, c, x, y);
        let prev = extents_of(surfaces, s, n - 1);
        let last = surfaces[n - 1];
        if is_child_of(surfaces, n - 1, s) && !last.extents.spec_is_empty() {
            let lp = last.ext->Subsurface_0.position;
            let ce = last.extents.spec_move(lp.x1 as int, lp.y1 as int);
            assert(!prev.spec_is_empty());
            crate::rect::lemma_union_covers(prev, ce, x, y);
        }
    }
}

} // verus!
