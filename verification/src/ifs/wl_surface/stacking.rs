//! The order in which the children of a surface are painted, and which surface lies
//! under a point.
//!
//! All stack elements of a client stand in one list. The children of one parent are
//! painted in the order of the list: first those below the parent, then the parent,
//! then those above it. An element that is pending is not painted yet.

use vstd::prelude::*;
use crate::client::{Client, Scene};
use crate::ifs::wl_surface::pending::{PendingState, PendingSubsurfaceData};
use crate::ifs::wl_surface::wl_subsurface::{WlSubsurface, WlSubsurfaceError, MAX_SUBSURFACE_DEPTH};
use crate::ifs::wl_surface::{StackElement, SurfaceExt, WlSurface};
use crate::rect::clamp_i32;

verus! {

/// The place of the first element from `k` on that stands above `parent`, or the
/// end of the list.
pub open spec fn first_above(stack: Seq<StackElement>, parent: usize, k: int) -> int
    decreases stack.len() - k,
{
    if k < 0 || k >= stack.len() {
        stack.len() as int
    } else if stack[k].parent == parent && stack[k].above {
        k
    } else {
        first_above(stack, parent, k + 1)
    }
}

/// The place behind the last of the first `k` elements that stands below `parent`,
/// or the start of the list.
pub open spec fn behind_last_below(stack: Seq<StackElement>, parent: usize, k: int) -> int
    decreases k,
{
    if k <= 0 || k > stack.len() {
        0
    } else if stack[k - 1].parent == parent && !stack[k - 1].above {
        k
    } else {
        behind_last_below(stack, parent, k - 1)
    }
}

/// The place of the first element from `k` on that was made under the name
/// `node_id` for the child `sub_surface`.
pub open spec fn node_index(stack: Seq<StackElement>, node_id: u64, sub_surface: usize, k: int) -> Option<
    int,
>
    decreases stack.len() - k,
{
    if k < 0 || k >= stack.len() {
        None
    } else if stack[k].node_id == node_id && stack[k].sub_surface == sub_surface {
        Some(k)
    } else {
        node_index(stack, node_id, sub_surface, k + 1)
    }
}

/// Where a new element for a child of `parent` goes that is to stand next to
/// `sibling`, and whether it stands above the parent then. Next to the parent
/// itself this is the innermost place of the band; next to another child it is the
/// place directly above or below the element that was made last for that child.
pub open spec fn restack_place(sc: Scene, s: usize, parent: usize, sibling: usize, above: bool) -> Option<
    (int, bool),
> {
    if sibling == s || sibling >= sc.surfaces.len() {
        None
    } else if sibling == parent {
        if above {
            Some((first_above(sc.stack, parent, 0), true))
        } else {
            Some((behind_last_below(sc.stack, parent, sc.stack.len() as int), false))
        }
    } else {
        match sc.surfaces[sibling as int].ext {
            SurfaceExt::Subsurface(sib) => if sib.parent != parent {
                None
            } else {
                match node_index(sc.stack, sib.latest_node, sibling, 0) {
                    Some(k) => Some(
                        (
                            if above {
                                k + 1
                            } else {
                                k
                            },
                            sc.stack[k].above,
                        ),
                    ),
                    None => None,
                }
            },
            _ => None,
        }
    }
}

/// What the request to put the child at `s` next to `sibling` leads to: a pending
/// element in the new place, which takes effect with the next commit that reaches
/// the child.
pub open spec fn restacked(sc: Scene, s: usize, sibling: usize, above: bool, node_id: u64) -> (
    Scene,
    Option<WlSubsurfaceError>,
) {
    let surface = sc.surfaces[s as int];
    match surface.ext {
        SurfaceExt::Subsurface(sub) => match restack_place(sc, s, sub.parent, sibling, above) {
            Some(place) => (
                Scene {
                    stack: sc.stack.insert(
                        place.0,
                        StackElement {
                            node_id,
                            parent: sub.parent,
                            sub_surface: s,
                            above: place.1,
                            pending: true,
                        },
                    ),
                    surfaces: sc.surfaces.update(
                        s as int,
                        WlSurface {
                            ext: SurfaceExt::Subsurface(WlSubsurface { latest_node: node_id, ..sub }),
                            ..surface
                        },
                    ),
                    pending: sc.pending.update(
                        s as int,
                        PendingState {
                            subsurface: Some(
                                PendingSubsurfaceData {
                                    node: Some(node_id),
                                    position: match sc.pending[s as int].subsurface {
                                        Some(d) => d.position,
                                        None => None,
                                    },
                                },
                            ),
                            ..sc.pending[s as int]
                        },
                    ),
                    ..sc
                },
                None,
            ),
            None => (
                sc,
                Some(
                    WlSubsurfaceError::NotASibling(
                        surface.id,
                        if sibling < sc.surfaces.len() {
                            sc.surfaces[sibling as int].id
                        } else {
                            surface.id
                        },
                    ),
                ),
            ),
        },
        _ => (sc, Some(WlSubsurfaceError::NotASubsurface(surface.id))),
    }
}

pub proof fn lemma_first_above_bounds(stack: Seq<StackElement>, parent: usize, k: int)
    requires
        0 <= k <= stack.len(),
    ensures
        k <= first_above(stack, parent, k) <= stack.len(),
    decreases stack.len() - k,
{
    if k < stack.len() && !(stack[k].parent == parent && stack[k].above) {
        lemma_first_above_bounds(stack, parent, k + 1);
    }
}

pub proof fn lemma_behind_last_below_bounds(stack: Seq<StackElement>, parent: usize, k: int)
    requires
        0 <= k <= stack.len(),
    ensures
        0 <= behind_last_below(stack, parent, k) <= k,
    decreases k,
{
    if k > 0 && !(stack[k - 1].parent == parent && !stack[k - 1].above) {
        lemma_behind_last_below_bounds(stack, parent, k - 1);
    }
}

pub proof fn lemma_node_index_bounds(stack: Seq<StackElement>, node_id: u64, sub_surface: usize, k: int)
    requires
        0 <= k <= stack.len(),
    ensures
        node_index(stack, node_id, sub_surface, k) matches Some(i) ==> k <= i < stack.len(),
    decreases stack.len() - k,
{
    if k < stack.len() && !(stack[k].node_id == node_id && stack[k].sub_surface == sub_surface) {
        lemma_node_index_bounds(stack, node_id, sub_surface, k + 1);
    }
}

impl Client {
    /// Where a new element for a child of `parent` goes that is to stand next to `sibling`.
    #[verifier::loop_isolation(false)]
    pub fn find_restack_place(&self, s: usize, parent: usize, sibling: usize, above: bool) -> (r:
        Option<(usize, bool)>)
        ensures
            match restack_place(self@, s, parent, sibling, above) {
                Some(place) => r.is_some() && r.unwrap().0 as int == place.0 && r.unwrap().1
                    == place.1 && 0 <= place.0 <= self@.stack.len(),
                None => r.is_none(),
            },
    {
        if sibling == s || sibling >= self.surfaces.len() {
            return None;
        }
        proof {
            lemma_first_above_bounds(self.stack@, parent, 0);
            lemma_behind_last_below_bounds(self.stack@, parent, self.stack@.len() as int);
        }
        if sibling == parent {
            if above {
                let mut k: usize = 0;
                while k < self.stack.len()
                    invariant
                        0 <= k <= self.stack.len(),
                        first_above(self.stack@, parent, k as int) == first_above(
                            self.stack@,
                            parent,
                            0,
                        ),
                    decreases self.stack.len() - k,
                {
                    if self.stack[k].parent == parent && self.stack[k].above {
                        return Some((k, true));
                    }
                    k += 1;
                }
                Some((k, true))
            } else {
                let mut k: usize = self.stack.len();
                while k > 0
                    invariant
                        0 <= k <= self.stack.len(),
                        behind_last_below(self.stack@, parent, k as int) == behind_last_below(
                            self.stack@,
                            parent,
                            self.stack@.len() as int,
                        ),
                    decreases k,
                {
                    if self.stack[k - 1].parent == parent && !self.stack[k - 1].above {
                        return Some((k, false));
                    }
                    k -= 1;
                }
                Some((0, false))
            }
        } else {
            match self.surfaces[sibling].ext {
                SurfaceExt::Subsurface(sib) => {
                    if sib.parent != parent {
                        return None;
                    }
                    proof {
                        lemma_node_index_bounds(self.stack@, sib.latest_node, sibling, 0);
                    }
                    let mut k: usize = 0;
                    while k < self.stack.len()
                        invariant
                            0 <= k <= self.stack.len(),
                            node_index(self.stack@, sib.latest_node, sibling, k as int) == node_index(
                                self.stack@,
                                sib.latest_node,
                                sibling,
                                0,
                            ),
                        decreases self.stack.len() - k,
                    {
                        if self.stack[k].node_id == sib.latest_node && self.stack[k].sub_surface
                            == sibling {
                            let band = self.stack[k].above;
                            return Some((if above { k + 1 } else { k }, band));
                        }
                        k += 1;
                    }
                    None
                },
                _ => None,
            }
        }
    }
}

impl WlSubsurface {
    /// Asks for the child at `s` to be painted directly above or below `sibling`,
    /// which is its parent or another child of its parent.
    pub fn place(client: &mut Client, s: usize, sibling: usize, above: bool, node_id: u64) -> (r:
        Result<(), WlSubsurfaceError>)
        requires
            old(client).wf(),
            s < old(client)@.surfaces.len(),
        ensures
            final(client).wf(),
            final(client)@ == restacked(old(client)@, s, sibling, above, node_id).0,
            match restacked(old(client)@, s, sibling, above, node_id).1 {
                Some(e) => r == Err::<(), WlSubsurfaceError>(e),
                None => r.is_ok(),
            },
    {
        let id: u32 = client.surfaces[s].id;
        let sub = match client.surfaces[s].ext {
            SurfaceExt::Subsurface(sub) => sub,
            _ => {
                return Err(WlSubsurfaceError::NotASubsurface(id));
            },
        };
        let place = match client.find_restack_place(s, sub.parent, sibling, above) {
            Some(place) => place,
            None => {
                let other: u32 = if sibling < client.surfaces.len() {
                    client.surfaces[sibling].id
                } else {
                    id
                };
                return Err(WlSubsurfaceError::NotASibling(id, other));
            },
        };
        client.stack.insert(
            place.0,
            StackElement {
                node_id,
                parent: sub.parent,
                sub_surface: s,
                above: place.1,
                pending: true,
            },
        );
        let ghost first = client@;
        assert(first == (Scene {
            stack: old(client)@.stack.insert(
                place.0 as int,
                StackElement {
                    node_id,
                    parent: sub.parent,
                    sub_surface: s,
                    above: place.1,
                    pending: true,
                },
            ),
            ..old(client)@
        }));
        proof {
            assert forall|i: int| 0 <= i < first.surfaces.len() implies (
            #[trigger] first.surfaces[i]).wf() by {
                assert(old(client)@.surfaces[i].wf());
            }
        }
        WlSubsurface::set_ext(client, s, WlSubsurface { latest_node: node_id, ..sub });
        WlSubsurface::note_restack(client, s, node_id);
        proof {
            let expected = restacked(old(client)@, s, sibling, above, node_id).0;
            let spec_place = restack_place(old(client)@, s, sub.parent, sibling, above);
            assert(spec_place is Some);
            let sp = spec_place->0;
            assert(sp.0 == place.0 as int);
            assert(sp.1 == place.1);
            assert(client@.stack == first.stack);
            assert(client@.stack == expected.stack);
            assert(client@.surfaces == expected.surfaces);
            assert(client@.pending == expected.pending);
        }
        Ok(())
    }

    pub fn place_above(client: &mut Client, s: usize, sibling: usize, node_id: u64) -> (r: Result<
        (),
        WlSubsurfaceError,
    >)
        requires
            old(client).wf(),
            s < old(client)@.surfaces.len(),
        ensures
            final(client).wf(),
            final(client)@ == restacked(old(client)@, s, sibling, true, node_id).0,
            match restacked(old(client)@, s, sibling, true, node_id).1 {
                Some(e) => r == Err::<(), WlSubsurfaceError>(e),
                None => r.is_ok(),
            },
    {
        WlSubsurface::place(client, s, sibling, true, node_id)
    }

    pub fn place_below(client: &mut Client, s: usize, sibling: usize, node_id: u64) -> (r: Result<
        (),
        WlSubsurfaceError,
    >)
        requires
            old(client).wf(),
            s < old(client)@.surfaces.len(),
        ensures
            final(client).wf(),
            final(client)@ == restacked(old(client)@, s, sibling, false, node_id).0,
            match restacked(old(client)@, s, sibling, false, node_id).1 {
                Some(e) => r == Err::<(), WlSubsurfaceError>(e),
                None => r.is_ok(),
            },
    {
        WlSubsurface::place(client, s, sibling, false, node_id)
    }
}

/// Whether the surface takes input at a point, given relative to the surface: the
/// point lies in the rectangle of the surface and, where the surface has an input
/// region, in that region.
pub open spec fn accepts_input(surface: WlSurface, x: i32, y: i32) -> bool {
    &&& surface.buffer_abs_pos.spec_at_point(0, 0).spec_contains(x as int, y as int)
    &&& match surface.input_region {
        Some(region) => region.spec_contains(x as int, y as int),
        None => true,
    }
}

/// The surface under a point, given relative to the surface at `s`, among that
/// surface and those below it in the tree, with the point relative to the surface
/// that was found. The children above the surface come first, the topmost first,
/// then the surface itself, then the children below it.
pub open spec fn surface_at(sc: Scene, s: usize, x: i32, y: i32, fuel: nat) -> Option<
    (usize, i32, i32),
>
    decreases fuel, sc.stack.len() + 1,
{
    if s >= sc.surfaces.len() {
        None
    } else {
        match stacked_at(sc, s, x, y, true, sc.stack.len() as int, fuel) {
            Some(found) => Some(found),
            None => if accepts_input(sc.surfaces[s as int], x, y) {
                Some((s, x, y))
            } else {
                stacked_at(sc, s, x, y, false, sc.stack.len() as int, fuel)
            },
        }
    }
}

/// The surface under the point among the children of the surface at `s` in one
/// band whose elements are among the first `k` of the stack, the last element first.
pub open spec fn stacked_at(sc: Scene, s: usize, x: i32, y: i32, above: bool, k: int, fuel: nat) -> Option<
    (usize, i32, i32),
>
    decreases fuel, k,
{
    if k <= 0 || k > sc.stack.len() {
        None
    } else {
        match child_at(sc, s, x, y, above, sc.stack[k - 1], fuel) {
            Some(found) => Some(found),
            None => stacked_at(sc, s, x, y, above, k - 1, fuel),
        }
    }
}

/// The surface under the point in the child that a stack element stands for, if
/// the element belongs to the band, is not pending, and the point lies in the child.
pub open spec fn child_at(
    sc: Scene,
    s: usize,
    x: i32,
    y: i32,
    above: bool,
    e: StackElement,
    fuel: nat,
) -> Option<(usize, i32, i32)>
    decreases fuel, 0nat,
{
    if e.parent == s && e.above == above && !e.pending && e.sub_surface < sc.surfaces.len()
        && e.sub_surface != s && fuel > 0 {
        match sc.surfaces[e.sub_surface as int].ext {
            SurfaceExt::Subsurface(sub) => if sub.position.spec_contains(x as int, y as int) {
                surface_at(
                    sc,
                    e.sub_surface,
                    clamp_i32(x - sub.position.x1) as i32,
                    clamp_i32(y - sub.position.y1) as i32,
                    (fuel - 1) as nat,
                )
            } else {
                None
            },
            _ => None,
        }
    } else {
        None
    }
}

impl WlSurface {
    pub fn accepts_input_at(&self, x: i32, y: i32) -> (r: bool)
        ensures
            r == accepts_input(*self, x, y),
    {
        let rect = self.buffer_abs_pos.at_point(0, 0);
        if !rect.contains(x, y) {
            return false;
        }
        match &self.input_region {
            Some(region) => region.contains(x, y),
            None => true,
        }
    }

    /// The surface under a point, given relative to the surface at `s`.
    pub fn find_surface_at(client: &Client, s: usize, x: i32, y: i32) -> (r: Option<
        (usize, i32, i32),
    >)
        ensures
            r == surface_at(client@, s, x, y, MAX_SUBSURFACE_DEPTH as nat),
    {
        find_surface_below(client, s, x, y, MAX_SUBSURFACE_DEPTH)
    }
}

pub fn find_surface_below(client: &Client, s: usize, x: i32, y: i32, fuel: u32) -> (r: Option<
    (usize, i32, i32),
>)
    ensures
        r == surface_at(client@, s, x, y, fuel as nat),
    decreases fuel, client@.stack.len() + 1,
{
    if s >= client.surfaces.len() {
        return None;
    }
    match find_in_band(client, s, x, y, true, fuel) {
        Some(found) => Some(found),
        None => {
            if client.surfaces[s].accepts_input_at(x, y) {
                Some((s, x, y))
            } else {
                find_in_band(client, s, x, y, false, fuel)
            }
        },
    }
}

#[verifier::loop_isolation(false)]
pub fn find_in_band(client: &Client, s: usize, x: i32, y: i32, above: bool, fuel: u32) -> (r: Option<
    (usize, i32, i32),
>)
    ensures
        r == stacked_at(client@, s, x, y, above, client@.stack.len() as int, fuel as nat),
    decreases fuel, client@.stack.len(),
{
    let mut k: usize = client.stack.len();
    while k > 0
        invariant
            0 <= k <= client.stack.len(),
            stacked_at(client@, s, x, y, above, k as int, fuel as nat) == stacked_at(
                client@,
                s,
                x,
                y,
                above,
                client@.stack.len() as int,
                fuel as nat,
            ),
        decreases k,
    {
        let e = client.stack[k - 1];
        assert(stacked_at(client@, s, x, y, above, k as int, fuel as nat) == (match child_at(
            client@,
            s,
            x,
            y,
            above,
            e,
            fuel as nat,
        ) {
            Some(found) => Some(found),
            None => stacked_at(client@, s, x, y, above, k as int - 1, fuel as nat),
        }));
        if e.parent == s && e.above == above && !e.pending && e.sub_surface < client.surfaces.len()
            && e.sub_surface != s && fuel > 0 {
            match client.surfaces[e.sub_surface].ext {
                SurfaceExt::Subsurface(sub) => {
                    if sub.position.contains(x, y) {
                        let at = sub.position.translate(x, y);
                        match find_surface_below(client, e.sub_surface, at.0, at.1, fuel - 1) {
                            Some(found) => {
                                return Some(found);
                            },
                            None => {},
                        }
                    }
                },
                _ => {},
            }
        }
        k -= 1;
    }
    None
}

/// The children of one surface in the order in which they are painted: those below
/// the surface and those above it.
#[derive(Debug)]
pub struct ParentData {
    pub below: Vec<StackElement>,
    pub above: Vec<StackElement>,
}

/// Those of the first `n` stack elements that stand for children of the surface at
/// `s` in one band.
pub open spec fn band_of(stack: Seq<StackElement>, s: usize, above: bool, n: int) -> Seq<
    StackElement,
>
    decreases n,
{
    if n <= 0 || n > stack.len() {
        seq![]
    } else if stack[n - 1].parent == s && stack[n - 1].above == above {
        band_of(stack, s, above, n - 1).push(stack[n - 1])
    } else {
        band_of(stack, s, above, n - 1)
    }
}

impl WlSurface {
    /// The children of the surface at `s` in the order in which they are painted,
    /// or nothing if the surface has no child.
    pub fn children(client: &Client, s: usize) -> (r: Option<ParentData>)
        ensures
            ({
                let n = client@.stack.len() as int;
                let below = band_of(client@.stack, s, false, n);
                let above = band_of(client@.stack, s, true, n);
                if below.len() == 0 && above.len() == 0 {
                    r.is_none()
                } else {
                    r.is_some() && r.unwrap().below@ == below && r.unwrap().above@ == above
                }
            }),
    {
        let mut below: Vec<StackElement> = Vec::new();
        let mut above: Vec<StackElement> = Vec::new();
        let mut i: usize = 0;
        while i < client.stack.len()
            invariant
                0 <= i <= client.stack.len(),
                below@ == band_of(client@.stack, s, false, i as int),
                above@ == band_of(client@.stack, s, true, i as int),
            decreases client.stack.len() - i,
        {
            let e = client.stack[i];
            if e.parent == s {
                if e.above {
                    above.push(e);
                } else {
                    below.push(e);
                }
            }
            i += 1;
        }
        if below.len() == 0 && above.len() == 0 {
            None
        } else {
            Some(ParentData { below, above })
        }
    }
}

/// A surface that is found under a point takes input at the point that comes back
/// with it.
pub proof fn lemma_found_surface_accepts_input(sc: Scene, s: usize, x: i32, y: i32, fuel: nat)
    ensures
        surface_at(sc, s, x, y, fuel) matches Some(found) ==> found.0 < sc.surfaces.len()
            && accepts_input(sc.surfaces[found.0 as int], found.1, found.2),
    decreases fuel, sc.stack.len() + 1,
{
    if s < sc.surfaces.len() {
        lemma_found_in_band_accepts_input(sc, s, x, y, true, sc.stack.len() as int, fuel);
        lemma_found_in_band_accepts_input(sc, s, x, y, false, sc.stack.len() as int, fuel);
    }
}

pub proof fn lemma_found_in_band_accepts_input(
    sc: Scene,
    s: usize,
    x: i32,
    y: i32,
    above: bool,
    k: int,
    fuel: nat,
)
    ensures
        stacked_at(sc, s, x, y, above, k, fuel) matches Some(found) ==> found.0 < sc.surfaces.len()
            && accepts_input(sc.surfaces[found.0 as int], found.1, found.2),
    decreases fuel, k,
{
    if !(k <= 0 || k > sc.stack.len()) {
        let e = sc.stack[k - 1];
        let hit = child_at(sc, s, x, y, above, e, fuel);
        assert(stacked_at(sc, s, x, y, above, k, fuel) == (match hit {
            Some(found) => Some(found),
            None => stacked_at(sc, s, x, y, above, k - 1, fuel),
        }));
        if e.parent == s && e.above == above && !e.pending && e.sub_surface < sc.surfaces.len()
            && e.sub_surface != s && fuel > 0 {
            match sc.surfaces[e.sub_surface as int].ext {
                SurfaceExt::Subsurface(sub) => {
                    if sub.position.spec_contains(x as int, y as int) {
                        assert(hit == surface_at(
                            sc,
                            e.sub_surface,
                            clamp_i32(x - sub.position.x1) as i32,
                            clamp_i32(y - sub.position.y1) as i32,
                            (fuel - 1) as nat,
                        ));
                        lemma_found_surface_accepts_input(
                            sc,
                            e.sub_surface,
                            clamp_i32(x - sub.position.x1) as i32,
                            clamp_i32(y - sub.position.y1) as i32,
                            (fuel - 1) as nat,
                        );
                    }
                },
                _ => {},
            }
        }
        lemma_found_in_band_accepts_input(sc, s, x, y, above, k - 1, fuel);
    }
}

} // verus!
