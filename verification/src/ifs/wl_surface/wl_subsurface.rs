//! Surfaces that are children of other surfaces.

use vstd::prelude::*;
use crate::client::{Client, Scene};
use crate::ifs::wl_surface::apply::{lemma_state_keeps_queues, state_applied};
use crate::ifs::wl_surface::pending::{find_child, has_child, PendingState, PendingSubsurfaceData};
use crate::ifs::wl_surface::{SurfaceRole, WlSurfaceError};
use crate::ifs::wl_surface::tree::{
    lemma_positioned_frame, moved, position_surface, positioned, set_visible_upto, visibility_set,
};
use crate::ifs::wl_surface::{StackElement, SurfaceExt, WlSurface};
use crate::rect::{clamp_i32, sat_add, Rect};

verus! {

/// No subsurface lies deeper below a surface without a parent than this.
pub const MAX_SUBSURFACE_DEPTH: u32 = 100;

/// The role object of a surface that is a child of another surface.
#[derive(Copy, Clone, Debug, PartialEq, Eq, Structural)]
pub struct WlSubsurface {
    pub unique_id: u64,
    /// The surface above this one.
    pub parent: usize,
    /// Where the child lies, relative to its parent; the size is that of the child.
    pub position: Rect,
    /// Whether the client asked for this child to be synchronized.
    pub sync_requested: bool,
    /// Whether a surface above this child is synchronized.
    pub sync_ancestor: bool,
    /// How many surfaces lie above this one.
    pub depth: u32,
    pub had_buffer: bool,
    /// The stack element that was made last for this child.
    pub latest_node: u64,
}

impl WlSubsurface {
    /// A child is synchronized if the client asked for it or if a surface above it is.
    pub open spec fn spec_sync(self) -> bool {
        self.sync_requested || self.sync_ancestor
    }

    pub fn sync(&self) -> (r: bool)
        ensures
            r == self.spec_sync(),
    {
        self.sync_requested || self.sync_ancestor
    }
}

/// The first `n` elements of the stack after the restack of a child took effect: of
/// the elements of the child only the one that the restack made remains, and it is
/// no longer pending.
pub open spec fn stack_committed(stack: Seq<StackElement>, s: usize, node: u64, n: int) -> Seq<
    StackElement,
>
    decreases n,
{
    if n <= 0 || n > stack.len() {
        seq![]
    } else {
        let rest = stack_committed(stack, s, node, n - 1);
        let e = stack[n - 1];
        if e.sub_surface != s {
            rest.push(e)
        } else if e.node_id == node {
            rest.push(StackElement { pending: false, ..e })
        } else {
            rest
        }
    }
}

/// The scene after a subsurface took over its pending place in the stack and its
/// pending position: the surfaces below it follow, and the bounding rectangle of its
/// parent is due to be computed anew.
pub open spec fn subsurface_applied(sc: Scene, s: usize, data: PendingSubsurfaceData) -> Scene {
    let sc1 = match data.node {
        Some(node) => Scene {
            stack: stack_committed(sc.stack, s, node, sc.stack.len() as int),
            ..sc
        },
        None => sc,
    };
    match (data.position, sc.surfaces[s as int].ext) {
        (Some(at), SurfaceExt::Subsurface(sub)) => {
            let old = sc.surfaces[s as int];
            let placed = sc.surfaces.update(
                s as int,
                WlSurface {
                    ext: SurfaceExt::Subsurface(
                        WlSubsurface { position: old.buffer_abs_pos.spec_at_point(at.0, at.1), ..sub },
                    ),
                    ..old
                },
            );
            let origin = parent_origin(sc.surfaces, sub.parent);
            let below = positioned(
                placed,
                s,
                clamp_i32(origin.0 + at.0) as i32,
                clamp_i32(origin.1 + at.1) as i32,
                MAX_SUBSURFACE_DEPTH as nat,
            );
            Scene { surfaces: extents_due(below, sub.parent), ..sc1 }
        },
        _ => sc1,
    }
}

/// Where the buffer of the surface at `parent` is shown, or the origin if there is no
/// such surface.
pub open spec fn parent_origin(surfaces: Seq<WlSurface>, parent: usize) -> (i32, i32) {
    if parent < surfaces.len() {
        (surfaces[parent as int].buffer_abs_pos.x1, surfaces[parent as int].buffer_abs_pos.y1)
    } else {
        (0, 0)
    }
}

/// The surfaces with the bounding rectangle of one of them due to be computed anew.
pub open spec fn extents_due(surfaces: Seq<WlSurface>, s: usize) -> Seq<WlSurface> {
    if s < surfaces.len() {
        surfaces.update(s as int, WlSurface { need_extents_update: true, ..surfaces[s as int] })
    } else {
        surfaces
    }
}

/// The scene after a subsurface has looked at what a commit left it with: a child
/// that got its first buffer becomes visible if its parent is, and a child that lost
/// its buffer becomes invisible, each with the surfaces below it.
pub open spec fn subsurface_after_apply(sc: Scene, s: usize) -> Scene {
    let old = sc.surfaces[s as int];
    match old.ext {
        SurfaceExt::Subsurface(sub) => {
            let has_buffer = old.buffer is Some;
            if sub.had_buffer == has_buffer {
                sc
            } else {
                let sc1 = Scene {
                    surfaces: sc.surfaces.update(
                        s as int,
                        WlSurface {
                            ext: SurfaceExt::Subsurface(WlSubsurface { had_buffer: has_buffer, ..sub }),
                            ..old
                        },
                    ),
                    ..sc
                };
                if !has_buffer {
                    visibility_set(sc1, s, false, MAX_SUBSURFACE_DEPTH as nat)
                } else if sub.parent < sc1.surfaces.len() && sc1.surfaces[sub.parent as int].visible {
                    visibility_set(sc1, s, true, MAX_SUBSURFACE_DEPTH as nat)
                } else {
                    sc1
                }
            }
        },
        _ => sc,
    }
}

impl WlSubsurface {
    /// Lets the restack and the position that a commit brings take effect.
    pub fn apply_state(client: &mut Client, s: usize, data: PendingSubsurfaceData)
        requires
            s < old(client)@.surfaces.len(),
        ensures
            final(client)@ == subsurface_applied(old(client)@, s, data),
            final(client)@.surfaces.len() == old(client)@.surfaces.len(),
            old(client).wf() ==> final(client).wf(),
    {
        match data.node {
            Some(node) => {
                WlSubsurface::commit_restack(client, s, node);
            },
            None => {},
        }
        match (data.position, client.surfaces[s].ext) {
            (Some(at), SurfaceExt::Subsurface(sub)) => {
                WlSubsurface::move_to(client, s, sub, at.0, at.1);
            },
            _ => {},
        }
    }

    /// Lets the restack of a child take effect.
    pub fn commit_restack(client: &mut Client, s: usize, node: u64)
        ensures
            final(client)@ == (Scene {
                stack: stack_committed(
                    old(client)@.stack,
                    s,
                    node,
                    old(client)@.stack.len() as int,
                ),
                ..old(client)@
            }),
    {
        let mut kept: Vec<StackElement> = Vec::new();
        let mut i: usize = 0;
        while i < client.stack.len()
            invariant
                0 <= i <= client.stack.len(),
                client@ == old(client)@,
                kept@ == stack_committed(client.stack@, s, node, i as int),
            decreases client.stack.len() - i,
        {
            let e = client.stack[i];
            if e.sub_surface != s {
                kept.push(e);
            } else if e.node_id == node {
                kept.push(StackElement { pending: false, ..e });
            }
            i += 1;
        }
        client.stack = kept;
    }

    /// Puts a child at `(x, y)` relative to its parent.
    pub fn move_to(client: &mut Client, s: usize, sub: WlSubsurface, x: i32, y: i32)
        requires
            s < old(client)@.surfaces.len(),
            old(client)@.surfaces[s as int].ext == SurfaceExt::Subsurface(sub),
        ensures
            final(client)@ == (Scene {
                surfaces: extents_due(
                    positioned(
                        old(client)@.surfaces.update(
                            s as int,
                            WlSurface {
                                ext: SurfaceExt::Subsurface(
                                    WlSubsurface {
                                        position: old(client)@.surfaces[s as int].buffer_abs_pos.spec_at_point(
                                            x,
                                            y,
                                        ),
                                        ..sub
                                    },
                                ),
                                ..old(client)@.surfaces[s as int]
                            },
                        ),
                        s,
                        clamp_i32(parent_origin(old(client)@.surfaces, sub.parent).0 + x) as i32,
                        clamp_i32(parent_origin(old(client)@.surfaces, sub.parent).1 + y) as i32,
                        MAX_SUBSURFACE_DEPTH as nat,
                    ),
                    sub.parent,
                ),
                ..old(client)@
            }),
            final(client)@.surfaces.len() == old(client)@.surfaces.len(),
            old(client).wf() ==> final(client).wf(),
    {
        let origin: (i32, i32) = if sub.parent < client.surfaces.len() {
            client.surfaces[sub.parent].buffer_abs_pos.position()
        } else {
            (0, 0)
        };
        let surface = &mut client.surfaces[s];
        surface.ext = SurfaceExt::Subsurface(
            WlSubsurface { position: surface.buffer_abs_pos.at_point(x, y), ..sub },
        );
        let ghost placed = client@.surfaces;
        proof {
            lemma_positioned_frame(
                placed,
                s,
                clamp_i32(origin.0 + x) as i32,
                clamp_i32(origin.1 + y) as i32,
                MAX_SUBSURFACE_DEPTH as nat,
            );
            if old(client).wf() {
                assert forall|i: int| 0 <= i < placed.len() implies (#[trigger] placed[i]).wf() by {
                    assert(old(client)@.surfaces[i].wf());
                }
            }
        }
        position_surface(
            &mut client.surfaces,
            s,
            sat_add(origin.0, x),
            sat_add(origin.1, y),
            MAX_SUBSURFACE_DEPTH,
        );
        let ghost below = client@.surfaces;
        proof {
            if old(client).wf() {
                assert forall|i: int| 0 <= i < below.len() implies (#[trigger] below[i]).wf() by {
                    assert(placed[i].wf());
                    assert(moved(placed[i], below[i]));
                }
            }
        }
        if sub.parent < client.surfaces.len() {
            let parent = &mut client.surfaces[sub.parent];
            parent.need_extents_update = true;
        }
        proof {
            let now = client@.surfaces;
            assert(now =~= extents_due(below, sub.parent));
            if old(client).wf() {
                assert forall|i: int| 0 <= i < now.len() implies (#[trigger] now[i]).wf() by {
                    assert(below[i].wf());
                }
            }
        }
    }

    /// Lets the subsurface follow the coming and going of its buffer.
    pub fn after_apply_commit(client: &mut Client, s: usize)
        requires
            s < old(client)@.surfaces.len(),
        ensures
            final(client)@ == subsurface_after_apply(old(client)@, s),
            final(client)@.surfaces.len() == old(client)@.surfaces.len(),
            old(client).wf() ==> final(client).wf(),
    {
        match client.surfaces[s].ext {
            SurfaceExt::Subsurface(sub) => {
                let has_buffer = client.surfaces[s].buffer.is_some();
                if sub.had_buffer != has_buffer {
                    let surface = &mut client.surfaces[s];
                    surface.ext = SurfaceExt::Subsurface(
                        WlSubsurface { had_buffer: has_buffer, ..sub },
                    );
                    proof {
                        if old(client).wf() {
                            assert(old(client)@.surfaces[s as int].wf());
                            assert(client.wf());
                        }
                    }
                    if !has_buffer {
                        set_visible_upto(client, s, false, MAX_SUBSURFACE_DEPTH);
                    } else if sub.parent < client.surfaces.len() && client.surfaces[sub.parent].visible {
                        set_visible_upto(client, s, true, MAX_SUBSURFACE_DEPTH);
                    }
                }
            },
            _ => {},
        }
    }
}

#[derive(Copy, Clone, Debug, PartialEq, Eq, Structural)]
pub enum WlSubsurfaceError {
    /// The surface cannot be its own parent.
    OwnParent(u32),
    /// The surface already has a role object.
    AlreadyAttached(u32),
    /// The surface lies above the surface that was to be its parent.
    Ancestor(u32, u32),
    /// The subsurfaces are nested too deeply.
    MaxDepthExceeded,
    /// The other surface is no sibling and not the parent.
    NotASibling(u32, u32),
    /// The surface is not a subsurface.
    NotASubsurface(u32),
    SurfaceError(WlSurfaceError),
}

/// The surface without a parent that is reached from the surface at `s` by going up.
pub open spec fn root_of(surfaces: Seq<WlSurface>, s: usize, fuel: nat) -> usize
    decreases fuel,
{
    if s < surfaces.len() && fuel > 0 {
        match surfaces[s as int].ext {
            SurfaceExt::Subsurface(sub) => root_of(surfaces, sub.parent, (fuel - 1) as nat),
            _ => s,
        }
    } else {
        s
    }
}

/// The surfaces after the subsurface at `s` and the subsurfaces below it learned
/// how deep they lie and whether a surface above them is synchronized, and whether
/// one of them lies too deep.
pub open spec fn attached_below(
    surfaces: Seq<WlSurface>,
    s: usize,
    sync: bool,
    depth: u32,
    fuel: nat,
) -> (Seq<WlSurface>, bool)
    decreases fuel, surfaces.len() + 1,
{
    if s >= surfaces.len() {
        (surfaces, false)
    } else {
        match surfaces[s as int].ext {
            SurfaceExt::Subsurface(sub) => if depth > MAX_SUBSURFACE_DEPTH {
                (surfaces, true)
            } else {
                let marked = surfaces.update(
                    s as int,
                    WlSurface {
                        ext: SurfaceExt::Subsurface(WlSubsurface { depth, sync_ancestor: sync, ..sub }),
                        ..surfaces[s as int]
                    },
                );
                attached_children(
                    marked,
                    s,
                    sub.sync_requested || sync,
                    (depth + 1) as u32,
                    0,
                    marked.len() as int,
                    fuel,
                )
            },
            _ => (surfaces, false),
        }
    }
}

pub open spec fn attached_children(
    surfaces: Seq<WlSurface>,
    s: usize,
    sync: bool,
    depth: u32,
    i: int,
    n: int,
    fuel: nat,
) -> (Seq<WlSurface>, bool)
    decreases fuel, n - i,
{
    if i < 0 || i >= n {
        (surfaces, false)
    } else {
        let next = if fuel > 0 && i <= usize::MAX && crate::ifs::wl_surface::tree::is_child_of(
            surfaces,
            i,
            s,
        ) {
            attached_below(surfaces, i as usize, sync, depth, (fuel - 1) as nat)
        } else {
            (surfaces, false)
        };
        if next.1 {
            next
        } else {
            attached_children(next.0, s, sync, depth, i + 1, n, fuel)
        }
    }
}

/// Marking depths changes nothing of a surface but its role object.
pub open spec fn marked_only(a: Seq<WlSurface>, b: Seq<WlSurface>) -> bool {
    &&& a.len() == b.len()
    &&& forall|i: int| 0 <= i < a.len() ==> (WlSurface { ext: (#[trigger] a[i]).ext, ..b[i] }) == a[i]
}

pub proof fn lemma_marked_only_trans(a: Seq<WlSurface>, b: Seq<WlSurface>, c: Seq<WlSurface>)
    requires
        marked_only(a, b),
        marked_only(b, c),
    ensures
        marked_only(a, c),
{
    assert forall|i: int| 0 <= i < a.len() implies (WlSurface { ext: (#[trigger] a[i]).ext, ..c[i] })
        == a[i] by {
        assert((WlSurface { ext: a[i].ext, ..b[i] }) == a[i]);
        assert((WlSurface { ext: b[i].ext, ..c[i] }) == b[i]);
    }
}

pub proof fn lemma_attached_frame(surfaces: Seq<WlSurface>, s: usize, sync: bool, depth: u32, fuel: nat)
    ensures
        marked_only(surfaces, attached_below(surfaces, s, sync, depth, fuel).0),
    decreases fuel, surfaces.len() + 1,
{
    if s < surfaces.len() {
        match surfaces[s as int].ext {
            SurfaceExt::Subsurface(sub) => {
                if depth <= MAX_SUBSURFACE_DEPTH {
                    let marked = surfaces.update(
                        s as int,
                        WlSurface {
                            ext: SurfaceExt::Subsurface(
                                WlSubsurface { depth, sync_ancestor: sync, ..sub },
                            ),
                            ..surfaces[s as int]
                        },
                    );
                    assert(marked_only(surfaces, marked));
                    lemma_attached_children_frame(
                        marked,
                        s,
                        sub.sync_requested || sync,
                        (depth + 1) as u32,
                        0,
                        marked.len() as int,
                        fuel,
                    );
                    lemma_marked_only_trans(
                        surfaces,
                        marked,
                        attached_children(
                            marked,
                            s,
                            sub.sync_requested || sync,
                            (depth + 1) as u32,
                            0,
                            marked.len() as int,
                            fuel,
                        ).0,
                    );
                }
            },
            _ => {},
        }
    }
}

pub proof fn lemma_attached_children_frame(
    surfaces: Seq<WlSurface>,
    s: usize,
    sync: bool,
    depth: u32,
    i: int,
    n: int,
    fuel: nat,
)
    ensures
        marked_only(surfaces, attached_children(surfaces, s, sync, depth, i, n, fuel).0),
    decreases fuel, n - i,
{
    if 0 <= i < n {
        if fuel > 0 && i <= usize::MAX && crate::ifs::wl_surface::tree::is_child_of(surfaces, i, s) {
            let next = attached_below(surfaces, i as usize, sync, depth, (fuel - 1) as nat);
            lemma_attached_frame(surfaces, i as usize, sync, depth, (fuel - 1) as nat);
            if !next.1 {
                lemma_attached_children_frame(next.0, s, sync, depth, i + 1, n, fuel);
                lemma_marked_only_trans(
                    surfaces,
                    next.0,
                    attached_children(next.0, s, sync, depth, i + 1, n, fuel).0,
                );
            }
        } else {
            lemma_attached_children_frame(surfaces, s, sync, depth, i + 1, n, fuel);
        }
    }
}

/// Tells the subsurface at `s` and the subsurfaces below it how deep they lie and
/// whether a surface above them is synchronized; says whether one lies too deep.
pub fn attach_below(surfaces: &mut Vec<WlSurface>, s: usize, sync: bool, depth: u32, fuel: u32) -> (r:
    bool)
    ensures
        (final(surfaces)@, r) == attached_below(old(surfaces)@, s, sync, depth, fuel as nat),
        final(surfaces)@.len() == old(surfaces)@.len(),
    decreases fuel, old(surfaces)@.len() + 1,
{
    proof {
        lemma_attached_frame(surfaces@, s, sync, depth, fuel as nat);
    }
    if s >= surfaces.len() {
        return false;
    }
    let sub = match surfaces[s].ext {
        SurfaceExt::Subsurface(sub) => sub,
        _ => {
            return false;
        },
    };
    if depth > MAX_SUBSURFACE_DEPTH {
        return true;
    }
    let n: usize = surfaces.len();
    let surface = &mut surfaces[s];
    surface.ext = SurfaceExt::Subsurface(WlSubsurface { depth, sync_ancestor: sync, ..sub });
    let ghost marked = surfaces@;
    let below: bool = sub.sync_requested || sync;
    let mut i: usize = 0;
    while i < n
        invariant
            0 <= i <= n,
            n == surfaces@.len(),
            n == marked.len(),
            s < n,
            n == old(surfaces)@.len(),
            depth < MAX_SUBSURFACE_DEPTH + 1,
            attached_below(old(surfaces)@, s, sync, depth, fuel as nat) == attached_children(
                marked,
                s,
                below,
                (depth + 1) as u32,
                0,
                n as int,
                fuel as nat,
            ),
            attached_children(surfaces@, s, below, (depth + 1) as u32, i as int, n as int, fuel as nat)
                == attached_children(marked, s, below, (depth + 1) as u32, 0, n as int, fuel as nat),
        decreases n - i,
    {
        if fuel > 0 && i != s {
            match surfaces[i].ext {
                SurfaceExt::Subsurface(child) => {
                    if child.parent == s {
                        let ghost before = surfaces@;
                        proof {
                            lemma_attached_frame(
                                before,
                                i,
                                below,
                                (depth + 1) as u32,
                                (fuel - 1) as nat,
                            );
                        }
                        let deep = attach_below(surfaces, i, below, depth + 1, fuel - 1);
                        proof {
                            assert(attached_children(
                                before,
                                s,
                                below,
                                (depth + 1) as u32,
                                i as int,
                                n as int,
                                fuel as nat,
                            ) == (if deep {
                                (surfaces@, true)
                            } else {
                                attached_children(
                                    surfaces@,
                                    s,
                                    below,
                                    (depth + 1) as u32,
                                    i as int + 1,
                                    n as int,
                                    fuel as nat,
                                )
                            }));
                        }
                        if deep {
                            return true;
                        }
                    }
                },
                _ => {},
            }
        }
        i += 1;
    }
    false
}

/// What the claim of the surface at `s` to be a subsurface of the surface at
/// `parent` leads to. A surface cannot be its own parent, needs a role that allows
/// it, must not have a role object yet and must not lie above its parent.
pub open spec fn role_claimed(sc: Scene, s: usize, parent: usize) -> (
    Scene,
    Option<WlSubsurfaceError>,
) {
    let surface = sc.surfaces[s as int];
    if s == parent {
        (sc, Some(WlSubsurfaceError::OwnParent(surface.id)))
    } else if surface.role != SurfaceRole::Unassigned && surface.role != SurfaceRole::Subsurface {
        (
            sc,
            Some(
                WlSubsurfaceError::SurfaceError(
                    WlSurfaceError::IncompatibleRole {
                        id: surface.id,
                        old: surface.role,
                        new: SurfaceRole::Subsurface,
                    },
                ),
            ),
        )
    } else {
        let with_role = Scene {
            surfaces: sc.surfaces.update(
                s as int,
                WlSurface { role: SurfaceRole::Subsurface, ..surface },
            ),
            ..sc
        };
        if surface.ext.spec_is_some() {
            (with_role, Some(WlSubsurfaceError::AlreadyAttached(surface.id)))
        } else if root_of(sc.surfaces, parent, MAX_SUBSURFACE_DEPTH as nat) == s {
            (with_role, Some(WlSubsurfaceError::Ancestor(surface.id, sc.surfaces[parent as int].id)))
        } else {
            (with_role, None)
        }
    }
}

/// The scene after the surface at `s` became a child of the surface at `parent`,
/// and whether a surface lies too deep now. The new child is synchronized, waits
/// on top of the stack of its parent until the parent commits, and lies one level
/// below its parent; the subsurfaces below it follow.
pub open spec fn child_attached(
    sc: Scene,
    s: usize,
    parent: usize,
    unique_id: u64,
    node_id: u64,
) -> (Scene, bool) {
    let above = match sc.surfaces[parent as int].ext {
        SurfaceExt::Subsurface(p) => (p.spec_sync(), (p.depth as int + 1)),
        _ => (false, 1int),
    };
    let sub = WlSubsurface {
        unique_id,
        parent,
        position: Rect::spec_empty(0, 0),
        sync_requested: true,
        sync_ancestor: false,
        depth: 0,
        had_buffer: false,
        latest_node: node_id,
    };
    let marked = attached_below(
        sc.surfaces.update(
            s as int,
            WlSurface { ext: SurfaceExt::Subsurface(sub), ..sc.surfaces[s as int] },
        ),
        s,
        above.0,
        clamp_depth(above.1),
        MAX_SUBSURFACE_DEPTH as nat,
    );
    (
        Scene {
            surfaces: marked.0,
            stack: sc.stack.push(
                StackElement { node_id, parent, sub_surface: s, above: true, pending: true },
            ),
            pending: sc.pending.update(
                s as int,
                PendingState {
                    subsurface: Some(
                        PendingSubsurfaceData {
                            node: Some(node_id),
                            position: match sc.pending[s as int].subsurface {
                                Some(d) => d.position,
                                None => None,
                            },
                        },
                    ),
                    ..sc.pending[s as int]
                },
            ),
            ..sc
        },
        marked.1,
    )
}

/// What making the surface at `s` a subsurface of the surface at `parent` leads to.
pub open spec fn installed(
    sc: Scene,
    s: usize,
    parent: usize,
    unique_id: u64,
    node_id: u64,
) -> (Scene, Option<WlSubsurfaceError>) {
    let claimed = role_claimed(sc, s, parent);
    if claimed.1 is Some {
        claimed
    } else {
        let attached = child_attached(claimed.0, s, parent, unique_id, node_id);
        (
            attached.0,
            if attached.1 {
                Some(WlSubsurfaceError::MaxDepthExceeded)
            } else {
                None
            },
        )
    }
}

/// A depth as it is stored: no depth beyond the first that is too deep is told apart.
pub open spec fn clamp_depth(depth: int) -> u32 {
    if depth > MAX_SUBSURFACE_DEPTH + 1 {
        (MAX_SUBSURFACE_DEPTH + 1) as u32
    } else if depth < 0 {
        0
    } else {
        depth as u32
    }
}

impl WlSurface {
    /// The surface without a parent above the surface at `s`.
    pub fn get_root(client: &Client, s: usize) -> (r: usize)
        ensures
            r == root_of(client@.surfaces, s, MAX_SUBSURFACE_DEPTH as nat),
    {
        let mut root: usize = s;
        let mut fuel: u32 = MAX_SUBSURFACE_DEPTH;
        while fuel > 0 && root < client.surfaces.len()
            invariant
                root_of(client@.surfaces, root, fuel as nat) == root_of(
                    client@.surfaces,
                    s,
                    MAX_SUBSURFACE_DEPTH as nat,
                ),
            decreases fuel,
        {
            match client.surfaces[root].ext {
                SurfaceExt::Subsurface(sub) => {
                    root = sub.parent;
                    fuel = fuel - 1;
                },
                _ => {
                    return root;
                },
            }
        }
        root
    }
}

impl WlSubsurface {
    /// Makes the surface at `s` a subsurface of the surface at `parent`.
    pub fn install(client: &mut Client, s: usize, parent: usize, unique_id: u64, node_id: u64) -> (r:
        Result<(), WlSubsurfaceError>)
        requires
            old(client).wf(),
            s < old(client)@.surfaces.len(),
            parent < old(client)@.surfaces.len(),
        ensures
            final(client).wf(),
            final(client)@ == installed(old(client)@, s, parent, unique_id, node_id).0,
            match installed(old(client)@, s, parent, unique_id, node_id).1 {
                Some(e) => r == Err::<(), WlSubsurfaceError>(e),
                None => r.is_ok(),
            },
    {
        match WlSubsurface::claim_role(client, s, parent) {
            Err(e) => {
                return Err(e);
            },
            Ok(()) => {},
        }
        if WlSubsurface::attach_child(client, s, parent, unique_id, node_id) {
            Err(WlSubsurfaceError::MaxDepthExceeded)
        } else {
            Ok(())
        }
    }

    /// Checks that the surface at `s` can become a subsurface of the surface at
    /// `parent`, and gives it the role.
    pub fn claim_role(client: &mut Client, s: usize, parent: usize) -> (r: Result<
        (),
        WlSubsurfaceError,
    >)
        requires
            old(client).wf(),
            s < old(client)@.surfaces.len(),
            parent < old(client)@.surfaces.len(),
        ensures
            final(client).wf(),
            final(client)@ == role_claimed(old(client)@, s, parent).0,
            final(client)@.surfaces.len() == old(client)@.surfaces.len(),
            match role_claimed(old(client)@, s, parent).1 {
                Some(e) => r == Err::<(), WlSubsurfaceError>(e),
                None => r.is_ok(),
            },
    {
        if s == parent {
            return Err(WlSubsurfaceError::OwnParent(client.surfaces[s].id));
        }
        let id: u32 = client.surfaces[s].id;
        let parent_id: u32 = client.surfaces[parent].id;
        let has_ext = client.surfaces[s].ext.is_some();
        let root = WlSurface::get_root(client, parent);
        assert(old(client)@.surfaces[s as int].wf());
        let surface = &mut client.surfaces[s];
        match surface.set_role(SurfaceRole::Subsurface) {
            Err(e) => {
                assert(client@.surfaces =~= old(client)@.surfaces);
                return Err(WlSubsurfaceError::SurfaceError(e));
            },
            Ok(()) => {},
        }
        proof {
            assert forall|i: int| 0 <= i < client@.surfaces.len() implies (
            #[trigger] client@.surfaces[i]).wf() by {
                assert(old(client)@.surfaces[i].wf());
            }
        }
        if has_ext {
            return Err(WlSubsurfaceError::AlreadyAttached(id));
        }
        if root == s {
            return Err(WlSubsurfaceError::Ancestor(id, parent_id));
        }
        Ok(())
    }

    /// Makes the surface at `s` a child of the surface at `parent`; says whether a
    /// surface lies too deep now.
    pub fn attach_child(client: &mut Client, s: usize, parent: usize, unique_id: u64, node_id: u64) -> (r:
        bool)
        requires
            old(client).wf(),
            s < old(client)@.surfaces.len(),
            parent < old(client)@.surfaces.len(),
        ensures
            final(client).wf(),
            (final(client)@, r) == child_attached(old(client)@, s, parent, unique_id, node_id),
    {
        let (sync_ancestor, depth): (bool, u32) = match client.surfaces[parent].ext {
            SurfaceExt::Subsurface(p) => (
                p.sync(),
                if p.depth > MAX_SUBSURFACE_DEPTH {
                    MAX_SUBSURFACE_DEPTH + 1
                } else {
                    p.depth + 1
                },
            ),
            _ => (false, 1),
        };
        WlSubsurface::set_ext(
            client,
            s,
            WlSubsurface {
                unique_id,
                parent,
                position: Rect::new_empty(0, 0),
                sync_requested: true,
                sync_ancestor: false,
                depth: 0,
                had_buffer: false,
                latest_node: node_id,
            },
        );
        let too_deep = WlSubsurface::mark_below(client, s, sync_ancestor, depth);
        client.stack.push(
            StackElement { node_id, parent, sub_surface: s, above: true, pending: true },
        );
        WlSubsurface::note_restack(client, s, node_id);
        too_deep
    }

    /// Gives the surface at `s` a subsurface as its role object.
    pub fn set_ext(client: &mut Client, s: usize, sub: WlSubsurface)
        requires
            old(client).wf(),
            s < old(client)@.surfaces.len(),
        ensures
            final(client).wf(),
            final(client)@ == (Scene {
                surfaces: old(client)@.surfaces.update(
                    s as int,
                    WlSurface { ext: SurfaceExt::Subsurface(sub), ..old(client)@.surfaces[s as int] },
                ),
                ..old(client)@
            }),
    {
        let surface = &mut client.surfaces[s];
        surface.ext = SurfaceExt::Subsurface(sub);
        proof {
            assert forall|i: int| 0 <= i < client@.surfaces.len() implies (
            #[trigger] client@.surfaces[i]).wf() by {
                assert(old(client)@.surfaces[i].wf());
            }
        }
    }

    /// Tells the subsurface at `s` and the subsurfaces below it how deep they lie
    /// and whether a surface above them is synchronized.
    pub fn mark_below(client: &mut Client, s: usize, sync: bool, depth: u32) -> (r: bool)
        requires
            old(client).wf(),
        ensures
            final(client).wf(),
            final(client)@ == (Scene {
                surfaces: attached_below(
                    old(client)@.surfaces,
                    s,
                    sync,
                    depth,
                    MAX_SUBSURFACE_DEPTH as nat,
                ).0,
                ..old(client)@
            }),
            r == attached_below(old(client)@.surfaces, s, sync, depth, MAX_SUBSURFACE_DEPTH as nat).1,
            final(client)@.surfaces.len() == old(client)@.surfaces.len(),
    {
        proof {
            lemma_attached_frame(client@.surfaces, s, sync, depth, MAX_SUBSURFACE_DEPTH as nat);
        }
        let r = attach_below(&mut client.surfaces, s, sync, depth, MAX_SUBSURFACE_DEPTH);
        proof {
            let before = old(client)@.surfaces;
            let marked = client@.surfaces;
            assert forall|i: int| 0 <= i < marked.len() implies (#[trigger] marked[i]).wf() by {
                assert(before[i].wf());
                assert((WlSurface { ext: before[i].ext, ..marked[i] }) == before[i]);
            }
        }
        r
    }

    /// Notes in the accumulator of the child at `s` that a stack element waits for
    /// the next commit.
    pub fn note_restack(client: &mut Client, s: usize, node_id: u64)
        requires
            old(client).wf(),
            s < old(client)@.surfaces.len(),
        ensures
            final(client).wf(),
            final(client)@ == crate::ifs::wl_surface::requests::recorded(
                old(client)@,
                s,
                PendingState {
                    subsurface: Some(
                        PendingSubsurfaceData {
                            node: Some(node_id),
                            position: match old(client)@.pending[s as int].subsurface {
                                Some(d) => d.position,
                                None => None,
                            },
                        },
                    ),
                    ..old(client)@.pending[s as int]
                },
            ),
    {
        assert(old(client)@.pending[s as int].wf());
        let pending = &mut client.pending[s];
        let position = match pending.subsurface {
            Some(d) => d.position,
            None => None,
        };
        pending.subsurface = Some(PendingSubsurfaceData { node: Some(node_id), position });
        proof {
            crate::ifs::wl_surface::requests::lemma_recorded_wf(
                old(client)@,
                s,
                client@.pending[s as int],
            );
        }
    }

    /// The position of the child relative to its parent changes with the next
    /// commit that reaches the child.
    pub fn set_position(client: &mut Client, s: usize, x: i32, y: i32)
        requires
            old(client).wf(),
            s < old(client)@.surfaces.len(),
        ensures
            final(client).wf(),
            final(client)@ == crate::ifs::wl_surface::requests::recorded(
                old(client)@,
                s,
                PendingState {
                    subsurface: Some(
                        PendingSubsurfaceData {
                            node: match old(client)@.pending[s as int].subsurface {
                                Some(d) => d.node,
                                None => None,
                            },
                            position: Some((x, y)),
                        },
                    ),
                    ..old(client)@.pending[s as int]
                },
            ),
    {
        assert(old(client)@.pending[s as int].wf());
        let pending = &mut client.pending[s];
        let node = match pending.subsurface {
            Some(d) => d.node,
            None => None,
        };
        pending.subsurface = Some(PendingSubsurfaceData { node, position: Some((x, y)) });
        proof {
            crate::ifs::wl_surface::requests::lemma_recorded_wf(
                old(client)@,
                s,
                client@.pending[s as int],
            );
        }
    }
}

/// The surfaces after the subsurfaces below the surface at `s`, among the surfaces
/// from `i` up to `n`, learned whether a surface above them is synchronized. A child
/// hands the news on where it changes whether the child is synchronized itself.
pub open spec fn children_synced(
    surfaces: Seq<WlSurface>,
    s: usize,
    sync: bool,
    i: int,
    n: int,
    fuel: nat,
) -> Seq<WlSurface>
    decreases fuel, n - i,
{
    if i < 0 || i >= n {
        surfaces
    } else {
        let next = if i <= usize::MAX && crate::ifs::wl_surface::tree::is_child_of(surfaces, i, s) {
            let child = surfaces[i].ext->Subsurface_0;
            let told = surfaces.update(
                i,
                WlSurface {
                    ext: SurfaceExt::Subsurface(WlSubsurface { sync_ancestor: sync, ..child }),
                    ..surfaces[i]
                },
            );
            if fuel > 0 && child.spec_sync() != (child.sync_requested || sync) {
                children_synced(told, i as usize, sync, 0, told.len() as int, (fuel - 1) as nat)
            } else {
                told
            }
        } else {
            surfaces
        };
        children_synced(next, s, sync, i + 1, n, fuel)
    }
}

/// The surfaces after the client asked for the subsurface at `s` to be
/// synchronized or not.
pub open spec fn sync_requested(surfaces: Seq<WlSurface>, s: usize, sync: bool) -> Seq<WlSurface> {
    match surfaces[s as int].ext {
        SurfaceExt::Subsurface(sub) => {
            let asked = surfaces.update(
                s as int,
                WlSurface {
                    ext: SurfaceExt::Subsurface(WlSubsurface { sync_requested: sync, ..sub }),
                    ..surfaces[s as int]
                },
            );
            if sub.spec_sync() != (sync || sub.sync_ancestor) {
                children_synced(
                    asked,
                    s,
                    sync || sub.sync_ancestor,
                    0,
                    asked.len() as int,
                    MAX_SUBSURFACE_DEPTH as nat,
                )
            } else {
                asked
            }
        },
        _ => surfaces,
    }
}

pub proof fn lemma_children_synced_frame(
    surfaces: Seq<WlSurface>,
    s: usize,
    sync: bool,
    i: int,
    n: int,
    fuel: nat,
)
    ensures
        marked_only(surfaces, children_synced(surfaces, s, sync, i, n, fuel)),
    decreases fuel, n - i,
{
    if 0 <= i < n {
        if i <= usize::MAX && crate::ifs::wl_surface::tree::is_child_of(surfaces, i, s) {
            let child = surfaces[i].ext->Subsurface_0;
            let told = surfaces.update(
                i,
                WlSurface {
                    ext: SurfaceExt::Subsurface(WlSubsurface { sync_ancestor: sync, ..child }),
                    ..surfaces[i]
                },
            );
            assert(marked_only(surfaces, told));
            let next = if fuel > 0 && child.spec_sync() != (child.sync_requested || sync) {
                lemma_children_synced_frame(
                    told,
                    i as usize,
                    sync,
                    0,
                    told.len() as int,
                    (fuel - 1) as nat,
                );
                children_synced(told, i as usize, sync, 0, told.len() as int, (fuel - 1) as nat)
            } else {
                told
            };
            lemma_marked_only_trans(surfaces, told, next);
            lemma_children_synced_frame(next, s, sync, i + 1, n, fuel);
            lemma_marked_only_trans(surfaces, next, children_synced(next, s, sync, i + 1, n, fuel));
        } else {
            lemma_children_synced_frame(surfaces, s, sync, i + 1, n, fuel);
        }
    }
}

/// Tells the subsurfaces below the surface at `s` whether a surface above them is
/// synchronized.
pub fn sync_children(surfaces: &mut Vec<WlSurface>, s: usize, sync: bool, fuel: u32)
    ensures
        final(surfaces)@ == children_synced(
            old(surfaces)@,
            s,
            sync,
            0,
            old(surfaces)@.len() as int,
            fuel as nat,
        ),
        final(surfaces)@.len() == old(surfaces)@.len(),
    decreases fuel, old(surfaces)@.len() + 1,
{
    proof {
        lemma_children_synced_frame(surfaces@, s, sync, 0, surfaces@.len() as int, fuel as nat);
    }
    let n: usize = surfaces.len();
    let mut i: usize = 0;
    while i < n
        invariant
            0 <= i <= n,
            n == surfaces@.len(),
            n == old(surfaces)@.len(),
            children_synced(surfaces@, s, sync, i as int, n as int, fuel as nat) == children_synced(
                old(surfaces)@,
                s,
                sync,
                0,
                n as int,
                fuel as nat,
            ),
        decreases n - i,
    {
        if i != s {
            match surfaces[i].ext {
                SurfaceExt::Subsurface(child) => {
                    if child.parent == s {
                        let was = child.sync();
                        let surface = &mut surfaces[i];
                        surface.ext = SurfaceExt::Subsurface(
                            WlSubsurface { sync_ancestor: sync, ..child },
                        );
                        let is = child.sync_requested || sync;
                        if fuel > 0 && was != is {
                            sync_children(surfaces, i, sync, fuel - 1);
                        }
                    }
                },
                _ => {},
            }
        }
        i += 1;
    }
}

/// The accumulators after the parent gave up what it held for the child with the
/// identity `id`, and what it held.
pub open spec fn held_taken(
    before: Seq<PendingState>,
    parent: usize,
    id: u64,
    after: Seq<PendingState>,
    held: Option<PendingState>,
) -> bool {
    let kids = before[parent as int].subsurfaces@;
    &&& after.len() == before.len()
    &&& forall|i: int| 0 <= i < before.len() && i != parent ==> #[trigger] after[i] == before[i]
    &&& after[parent as int] == (PendingState {
        subsurfaces: after[parent as int].subsurfaces,
        ..before[parent as int]
    })
    &&& if has_child(kids, id) {
        let j = choose|j: int| 0 <= j < kids.len() && (#[trigger] kids[j]).id == id;
        held == Some(kids[j].state) && after[parent as int].subsurfaces@ == kids.remove(j)
    } else {
        held is None && after == before
    }
}

impl WlSubsurface {
    /// Takes what the parent holds for the child with the identity `id` out of the
    /// accumulator of the parent.
    pub fn take_held(client: &mut Client, parent: usize, id: u64) -> (r: Option<PendingState>)
        requires
            old(client).wf(),
            parent < old(client)@.surfaces.len(),
        ensures
            final(client).wf(),
            final(client)@ == (Scene { pending: final(client)@.pending, ..old(client)@ }),
            held_taken(old(client)@.pending, parent, id, final(client)@.pending, r),
            r matches Some(p) ==> p.wf(),
    {
        assert(old(client)@.pending[parent as int].wf());
        let ghost kids = client@.pending[parent as int].subsurfaces@;
        let pending = &mut client.pending[parent];
        match find_child(&pending.subsurfaces, id) {
            Some(j) => {
                let entry = pending.subsurfaces.remove(j);
                proof {
                    let jc = choose|jc: int| 0 <= jc < kids.len() && (#[trigger] kids[jc]).id == id;
                    assert(jc == j) by {
                        if jc < j {
                            assert(kids[jc].id != kids[j as int].id);
                        } else if jc > j {
                            assert(kids[j as int].id != kids[jc].id);
                        }
                    }
                    let now = client@.pending[parent as int];
                    assert(now.subsurfaces@ == kids.remove(j as int));
                    assert forall|a: int, b: int| 0 <= a < b < now.subsurfaces@.len() implies (
                    #[trigger] now.subsurfaces@[a]).id != (#[trigger] now.subsurfaces@[b]).id by {
                        let a0 = if a < j { a } else { a + 1 };
                        let b0 = if b < j { b } else { b + 1 };
                        assert(kids[a0].id != kids[b0].id);
                    }
                    assert forall|i: int| 0 <= i < now.subsurfaces@.len() implies (
                    #[trigger] now.subsurfaces@[i]).state.wf() by {
                        let i0 = if i < j { i } else { i + 1 };
                        assert(kids[i0].state.wf());
                    }
                    assert(kids[j as int].state.wf());
                    assert forall|i: int| 0 <= i < client@.pending.len() implies (
                    #[trigger] client@.pending[i]).wf() by {
                        if i != parent {
                            assert(old(client)@.pending[i].wf());
                        }
                    }
                }
                Some(entry.state)
            },
            None => {
                assert(client@.pending =~= old(client)@.pending);
                None
            },
        }
    }

    /// Notes whether the client wants the child at `s` synchronized, and tells the
    /// subsurfaces below it.
    pub fn update_sync(client: &mut Client, s: usize, sync: bool)
        requires
            old(client).wf(),
            s < old(client)@.surfaces.len(),
        ensures
            final(client).wf(),
            final(client)@ == (Scene {
                surfaces: sync_requested(old(client)@.surfaces, s, sync),
                ..old(client)@
            }),
            final(client)@.surfaces.len() == old(client)@.surfaces.len(),
    {
        match client.surfaces[s].ext {
            SurfaceExt::Subsurface(sub) => {
                let was = sub.sync();
                let is = sync || sub.sync_ancestor;
                WlSubsurface::set_ext(client, s, WlSubsurface { sync_requested: sync, ..sub });
                if was != is {
                    WlSubsurface::sync_below(client, s, is);
                }
            },
            _ => {},
        }
    }

    /// Tells the subsurfaces below the surface at `s` whether a surface above them
    /// is synchronized.
    pub fn sync_below(client: &mut Client, s: usize, sync: bool)
        requires
            old(client).wf(),
        ensures
            final(client).wf(),
            final(client)@ == (Scene {
                surfaces: children_synced(
                    old(client)@.surfaces,
                    s,
                    sync,
                    0,
                    old(client)@.surfaces.len() as int,
                    MAX_SUBSURFACE_DEPTH as nat,
                ),
                ..old(client)@
            }),
            final(client)@.surfaces.len() == old(client)@.surfaces.len(),
    {
        proof {
            lemma_children_synced_frame(
                client@.surfaces,
                s,
                sync,
                0,
                client@.surfaces.len() as int,
                MAX_SUBSURFACE_DEPTH as nat,
            );
        }
        sync_children(&mut client.surfaces, s, sync, MAX_SUBSURFACE_DEPTH);
        proof {
            let before = old(client)@.surfaces;
            let told = client@.surfaces;
            assert forall|i: int| 0 <= i < told.len() implies (#[trigger] told[i]).wf() by {
                assert(before[i].wf());
                assert((WlSurface { ext: before[i].ext, ..told[i] }) == before[i]);
            }
        }
    }

    /// The client wants the child at `s` synchronized: its commits wait for its parent.
    pub fn set_sync(client: &mut Client, s: usize)
        requires
            old(client).wf(),
            s < old(client)@.surfaces.len(),
        ensures
            final(client).wf(),
            final(client)@ == (Scene {
                surfaces: sync_requested(old(client)@.surfaces, s, true),
                ..old(client)@
            }),
    {
        WlSubsurface::update_sync(client, s, true);
    }

    /// The client wants the child at `s` desynchronized. Where the child is
    /// desynchronized then, what its parent holds for it is applied at once.
    pub fn set_desync(client: &mut Client, s: usize) -> (r: Result<(), WlSurfaceError>)
        requires
            old(client).wf(),
            s < old(client)@.surfaces.len(),
        ensures
            final(client).wf(),
            ({
                let told = Scene {
                    surfaces: sync_requested(old(client)@.surfaces, s, false),
                    ..old(client)@
                };
                match released_parent(told, s) {
                    Some(parent) => {
                        let id = told.surfaces[s as int].ext->Subsurface_0.unique_id;
                        let kids = told.pending[parent as int].subsurfaces@;
                        &&& held_taken(
                            told.pending,
                            parent,
                            id,
                            final(client)@.pending,
                            if has_child(kids, id) {
                                Some(
                                    kids[choose|j: int|
                                        0 <= j < kids.len() && (#[trigger] kids[j]).id == id].state,
                                )
                            } else {
                                None
                            },
                        )
                        &&& if has_child(kids, id) {
                            let held = kids[choose|j: int|
                                0 <= j < kids.len() && (#[trigger] kids[j]).id == id].state;
                            let applied = state_applied(
                                Scene { pending: final(client)@.pending, ..told },
                                s,
                                held,
                            );
                            &&& final(client)@ == applied.0
                            &&& match applied.1 {
                                Some(e) => r == Err::<(), WlSurfaceError>(e),
                                None => r.is_ok(),
                            }
                        } else {
                            r.is_ok() && final(client)@ == told
                        }
                    },
                    None => r.is_ok() && final(client)@ == told,
                }
            }),
    {
        WlSubsurface::update_sync(client, s, false);
        let ghost told = client@;
        match client.surfaces[s].ext {
            SurfaceExt::Subsurface(sub) => {
                if !sub.sync() && sub.parent < client.surfaces.len() {
                    match WlSubsurface::take_held(client, sub.parent, sub.unique_id) {
                        Some(held) => {
                            let ghost start = client@;
                            let r = WlSurface::apply_state(client, s, held);
                            proof {
                                lemma_state_keeps_queues(start, s, held);
                            }
                            r
                        },
                        None => Ok(()),
                    }
                } else {
                    Ok(())
                }
            },
            _ => Ok(()),
        }
    }
}

/// The parent that has to give up what it holds for the child at `s`, because the
/// child is desynchronized.
pub open spec fn released_parent(sc: Scene, s: usize) -> Option<usize> {
    match sc.surfaces[s as int].ext {
        SurfaceExt::Subsurface(sub) => if !sub.spec_sync() && sub.parent < sc.surfaces.len() {
            Some(sub.parent)
        } else {
            None
        },
        _ => None,
    }
}

} // verus!
