use jay::client::{Client, Event};
use jay::ifs::wl_buffer::WlBuffer;
use jay::ifs::wl_surface::outputs::{
    OutputState, SurfaceSendPreferredScaleVisitor, SurfaceSendPreferredTransformVisitor,
};
use jay::ifs::wl_surface::wl_subsurface::{WlSubsurface, WlSubsurfaceError, MAX_SUBSURFACE_DEPTH};
use jay::ifs::wl_surface::{SurfaceExt, SurfaceRole, WlSurface, WlSurfaceError};
use jay::ifs::wl_output::Scale;
use jay::rect::{Rect, Region};
use jay::transform::Transform;

fn buffer(id: u32, w: i32, h: i32) -> WlBuffer {
    WlBuffer::new(id, w, h, false).unwrap()
}

fn attach(client: &mut Client, s: usize, id: u32, w: i32, h: i32) {
    client.live_buffers.create(id);
    WlSurface::attach(client, s, Some(buffer(id, w, h)), 0, 0).unwrap();
}

fn sub(client: &Client, s: usize) -> WlSubsurface {
    match client.surfaces[s].ext {
        SurfaceExt::Subsurface(sub) => sub,
        _ => panic!("surface {} is no subsurface", s),
    }
}

/// A parent with one child; the child's first stack element is committed.
fn parent_and_child() -> (Client, usize, usize) {
    let mut client = Client::new(true);
    let parent = client.create_surface(1, 6);
    let child = client.create_surface(2, 6);
    WlSubsurface::install(&mut client, child, parent, 100, 1).unwrap();
    (client, parent, child)
}

#[test]
fn install_makes_a_synchronized_child() {
    let (client, parent, child) = parent_and_child();
    let s = sub(&client, child);
    assert_eq!(s.parent, parent);
    assert_eq!(s.unique_id, 100);
    assert_eq!(s.depth, 1);
    assert!(s.sync_requested);
    assert!(!s.sync_ancestor);
    assert!(s.sync());
    assert_eq!(client.surfaces[child].role, SurfaceRole::Subsurface);
    assert_eq!(client.stack.len(), 1);
    assert!(client.stack[0].pending);
    assert!(client.stack[0].above);
    assert_eq!(client.stack[0].sub_surface, child);
    assert_eq!(client.pending[child].subsurface.unwrap().node, Some(1));
    assert_eq!(WlSurface::get_root(&client, child), parent);
    assert_eq!(WlSurface::get_root(&client, parent), parent);
}

#[test]
fn install_refuses_what_makes_no_tree() {
    let mut client = Client::new(true);
    let a = client.create_surface(1, 6);
    let b = client.create_surface(2, 6);
    let c = client.create_surface(3, 6);
    assert_eq!(
        WlSubsurface::install(&mut client, a, a, 1, 1),
        Err(WlSubsurfaceError::OwnParent(1))
    );
    client.surfaces[c].set_role(SurfaceRole::Cursor).unwrap();
    assert_eq!(
        WlSubsurface::install(&mut client, c, a, 1, 1),
        Err(WlSubsurfaceError::SurfaceError(WlSurfaceError::IncompatibleRole {
            id: 3,
            old: SurfaceRole::Cursor,
            new: SurfaceRole::Subsurface
        }))
    );
    assert_eq!(WlSubsurface::install(&mut client, b, a, 1, 1), Ok(()));
    assert_eq!(
        WlSubsurface::install(&mut client, b, a, 2, 2),
        Err(WlSubsurfaceError::AlreadyAttached(2))
    );
    assert_eq!(
        WlSubsurface::install(&mut client, a, b, 3, 3),
        Err(WlSubsurfaceError::Ancestor(1, 2))
    );
}

#[test]
fn depth_is_bounded() {
    let mut client = Client::new(true);
    let mut parent = client.create_surface(0, 6);
    for i in 0..MAX_SUBSURFACE_DEPTH {
        let child = client.create_surface(i + 1, 6);
        assert_eq!(WlSubsurface::install(&mut client, child, parent, i as u64, i as u64), Ok(()));
        assert_eq!(sub(&client, child).depth, i + 1);
        parent = child;
    }
    let child = client.create_surface(1000, 6);
    assert_eq!(
        WlSubsurface::install(&mut client, child, parent, 1000, 1000),
        Err(WlSubsurfaceError::MaxDepthExceeded)
    );
}

#[test]
fn a_subtree_is_marked_when_it_is_attached() {
    let mut client = Client::new(true);
    let root = client.create_surface(1, 6);
    let mid = client.create_surface(2, 6);
    let leaf = client.create_surface(3, 6);
    WlSubsurface::install(&mut client, leaf, mid, 1, 1).unwrap();
    assert_eq!(sub(&client, leaf).depth, 1);
    WlSubsurface::install(&mut client, mid, root, 2, 2).unwrap();
    assert_eq!(sub(&client, mid).depth, 1);
    assert_eq!(sub(&client, leaf).depth, 2);
    assert!(sub(&client, leaf).sync_ancestor);
    assert_eq!(WlSurface::get_root(&client, leaf), root);
}

#[test]
fn a_synchronized_commit_waits_for_the_parent() {
    let (mut client, parent, child) = parent_and_child();
    attach(&mut client, child, 10, 20, 20);
    assert_eq!(WlSurface::commit(&mut client, child), Ok(()));
    assert!(client.surfaces[child].buffer.is_none());
    assert!(client.events.is_empty());
    assert!(client.stack[0].pending);
    assert_eq!(client.pending[parent].subsurfaces.len(), 1);
    assert_eq!(client.pending[parent].subsurfaces[0].id, 100);
    assert_eq!(client.pending[parent].subsurfaces[0].surface, child);
    assert!(client.pending[child].buffer.is_none());

    assert_eq!(WlSurface::commit(&mut client, parent), Ok(()));
    assert_eq!(client.surfaces[child].buffer.unwrap().buffer, buffer(10, 20, 20));
    assert!(!client.stack[0].pending);
    assert!(client.pending[parent].subsurfaces.is_empty());
    assert_eq!(
        client.events,
        vec![Event::UpdateTexture { buffer: 10 }, Event::Damage, Event::Damage]
    );
}

#[test]
fn commits_of_a_synchronized_child_are_merged() {
    let (mut client, parent, child) = parent_and_child();
    attach(&mut client, child, 10, 20, 20);
    WlSurface::commit(&mut client, child).unwrap();
    attach(&mut client, child, 11, 30, 30);
    WlSurface::commit(&mut client, child).unwrap();
    assert_eq!(client.events, vec![Event::SendRelease { buffer: 10 }]);
    assert_eq!(client.pending[parent].subsurfaces.len(), 1);
    client.take_events();
    WlSurface::commit(&mut client, parent).unwrap();
    assert_eq!(client.surfaces[child].buffer.unwrap().buffer, buffer(11, 30, 30));
    assert!(!client.events.iter().any(|e| matches!(e, Event::SendRelease { .. })));
}

#[test]
fn a_desynchronized_commit_takes_effect_at_once() {
    let (mut client, _parent, child) = parent_and_child();
    assert_eq!(WlSubsurface::set_desync(&mut client, child), Ok(()));
    assert!(!sub(&client, child).sync());
    attach(&mut client, child, 10, 20, 20);
    assert_eq!(WlSurface::commit(&mut client, child), Ok(()));
    assert_eq!(client.surfaces[child].buffer.unwrap().buffer, buffer(10, 20, 20));
}

#[test]
fn desynchronizing_applies_what_the_parent_holds() {
    let (mut client, parent, child) = parent_and_child();
    attach(&mut client, child, 10, 20, 20);
    WlSurface::commit(&mut client, child).unwrap();
    assert!(client.surfaces[child].buffer.is_none());
    assert_eq!(WlSubsurface::set_desync(&mut client, child), Ok(()));
    assert_eq!(client.surfaces[child].buffer.unwrap().buffer, buffer(10, 20, 20));
    assert!(client.pending[parent].subsurfaces.is_empty());
    WlSubsurface::set_sync(&mut client, child);
    assert!(sub(&client, child).sync());
}

#[test]
fn synchronisation_is_inherited() {
    let mut client = Client::new(true);
    let root = client.create_surface(1, 6);
    let mid = client.create_surface(2, 6);
    let leaf = client.create_surface(3, 6);
    WlSubsurface::install(&mut client, mid, root, 1, 1).unwrap();
    WlSubsurface::install(&mut client, leaf, mid, 2, 2).unwrap();
    WlSubsurface::set_desync(&mut client, leaf).unwrap();
    assert!(sub(&client, leaf).sync());
    WlSubsurface::set_desync(&mut client, mid).unwrap();
    assert!(!sub(&client, mid).sync());
    assert!(!sub(&client, leaf).sync());
    WlSubsurface::set_sync(&mut client, mid);
    assert!(sub(&client, leaf).sync_ancestor);
    assert!(sub(&client, leaf).sync());
}

#[test]
fn positions_and_extents_follow_the_tree() {
    let (mut client, parent, child) = parent_and_child();
    attach(&mut client, parent, 1, 100, 100);
    attach(&mut client, child, 2, 50, 50);
    WlSubsurface::set_position(&mut client, child, 80, 90);
    WlSurface::commit(&mut client, child).unwrap();
    WlSurface::commit(&mut client, parent).unwrap();
    assert_eq!(sub(&client, child).position, Rect::new_sized(80, 90, 50, 50).unwrap());
    assert_eq!(client.surfaces[child].extents, Rect::new_sized(0, 0, 50, 50).unwrap());
    assert_eq!(client.surfaces[parent].extents, Rect::new_sized(0, 0, 130, 140).unwrap());
    WlSurface::set_absolute_position(&mut client, parent, 1000, 2000);
    assert_eq!(client.surfaces[parent].buffer_abs_pos, Rect::new_sized(1000, 2000, 100, 100).unwrap());
    assert_eq!(client.surfaces[child].buffer_abs_pos, Rect::new_sized(1080, 2090, 50, 50).unwrap());
    assert_eq!(
        WlSurface::compute_extents(&client, parent),
        Rect::new_sized(0, 0, 130, 140).unwrap()
    );
}

#[test]
fn a_child_that_grows_makes_its_parent_grow() {
    let (mut client, parent, child) = parent_and_child();
    attach(&mut client, parent, 1, 100, 100);
    WlSurface::commit(&mut client, parent).unwrap();
    WlSubsurface::set_desync(&mut client, child).unwrap();
    attach(&mut client, child, 2, 300, 10);
    WlSurface::commit(&mut client, child).unwrap();
    assert_eq!(client.surfaces[parent].extents, Rect::new_sized(0, 0, 300, 100).unwrap());
    client.surfaces[parent].ext = SurfaceExt::Other;
    client.take_events();
    attach(&mut client, child, 3, 400, 10);
    WlSurface::commit(&mut client, child).unwrap();
    assert!(client.events.contains(&Event::ExtentsChanged { surface: parent }));
    client.take_events();
    WlSurface::calculate_extents(&mut client, parent);
    assert!(client.events.is_empty());
}

#[test]
fn children_follow_the_visibility_of_their_parent() {
    let (mut client, parent, child) = parent_and_child();
    WlSubsurface::set_desync(&mut client, child).unwrap();
    WlSurface::set_visible(&mut client, parent, true);
    assert!(client.surfaces[parent].visible);
    assert!(client.surfaces[child].visible);
    assert_eq!(
        client.events,
        vec![
            Event::VisibilityChanged { surface: parent, visible: true },
            Event::VisibilityChanged { surface: child, visible: true },
        ]
    );
    client.take_events();
    WlSurface::set_visible(&mut client, parent, true);
    assert!(client.events.is_empty());
    WlSurface::destroy_node(&mut client, parent);
    assert!(!client.surfaces[parent].visible && !client.surfaces[child].visible);
    assert_eq!(client.events.last(), Some(&Event::Damage));
}

#[test]
fn a_child_appears_with_its_first_buffer() {
    let (mut client, parent, child) = parent_and_child();
    WlSubsurface::set_desync(&mut client, child).unwrap();
    client.surfaces[parent].visible = true;
    attach(&mut client, child, 2, 10, 10);
    WlSurface::commit(&mut client, child).unwrap();
    assert!(client.surfaces[child].visible);
    assert!(sub(&client, child).had_buffer);
    WlSurface::attach(&mut client, child, None, 0, 0).unwrap();
    WlSurface::commit(&mut client, child).unwrap();
    assert!(!client.surfaces[child].visible);
    assert!(!sub(&client, child).had_buffer);
}

#[test]
fn destroying_a_parent_frees_its_children() {
    let (mut client, parent, child) = parent_and_child();
    assert_eq!(WlSurface::destroy(&mut client, child), Err(WlSurfaceError::ReloObjectStillExists));
    assert_eq!(WlSurface::destroy(&mut client, parent), Ok(()));
    assert!(client.surfaces[child].ext.is_none());
    assert_eq!(WlSurface::destroy(&mut client, child), Ok(()));
}

fn stacked() -> (Client, usize, usize, usize) {
    let mut client = Client::new(true);
    let parent = client.create_surface(1, 6);
    let a = client.create_surface(2, 6);
    let b = client.create_surface(3, 6);
    WlSubsurface::install(&mut client, a, parent, 100, 1).unwrap();
    WlSubsurface::install(&mut client, b, parent, 101, 2).unwrap();
    attach(&mut client, parent, 1, 100, 100);
    attach(&mut client, a, 2, 50, 50);
    attach(&mut client, b, 3, 50, 50);
    WlSubsurface::set_position(&mut client, a, 10, 10);
    WlSubsurface::set_position(&mut client, b, 30, 30);
    WlSurface::commit(&mut client, a).unwrap();
    WlSurface::commit(&mut client, b).unwrap();
    WlSurface::commit(&mut client, parent).unwrap();
    (client, parent, a, b)
}

#[test]
fn the_topmost_child_under_the_point_is_found() {
    let (client, parent, a, b) = stacked();
    assert_eq!(WlSurface::find_surface_at(&client, parent, 5, 5), Some((parent, 5, 5)));
    assert_eq!(WlSurface::find_surface_at(&client, parent, 15, 15), Some((a, 5, 5)));
    assert_eq!(WlSurface::find_surface_at(&client, parent, 40, 40), Some((b, 10, 10)));
    assert_eq!(WlSurface::find_surface_at(&client, parent, 70, 70), Some((b, 40, 40)));
    assert_eq!(WlSurface::find_surface_at(&client, parent, 90, 90), Some((parent, 90, 90)));
    assert_eq!(WlSurface::find_surface_at(&client, parent, 200, 200), None);
    assert_eq!(WlSurface::find_surface_at(&client, 99, 0, 0), None);
}

#[test]
fn a_restack_takes_effect_with_the_commit() {
    let (mut client, parent, a, b) = stacked();
    assert_eq!(WlSubsurface::place_above(&mut client, a, b, 3), Ok(()));
    assert_eq!(client.stack.len(), 3);
    assert_eq!(client.stack[2].sub_surface, a);
    assert!(client.stack[2].pending);
    assert_eq!(WlSurface::find_surface_at(&client, parent, 40, 40), Some((b, 10, 10)));
    WlSurface::commit(&mut client, a).unwrap();
    assert_eq!(WlSurface::find_surface_at(&client, parent, 40, 40), Some((b, 10, 10)));
    WlSurface::commit(&mut client, parent).unwrap();
    assert_eq!(client.stack.len(), 2);
    assert_eq!(client.stack[0].sub_surface, b);
    assert_eq!(client.stack[1].sub_surface, a);
    assert!(!client.stack[1].pending);
    assert_eq!(WlSurface::find_surface_at(&client, parent, 40, 40), Some((a, 30, 30)));
}

#[test]
fn a_child_below_its_parent_is_hidden_by_it() {
    let (mut client, parent, a, _b) = stacked();
    assert_eq!(WlSubsurface::place_below(&mut client, a, parent, 3), Ok(()));
    assert!(!client.stack[0].above);
    assert_eq!(client.stack[0].sub_surface, a);
    WlSurface::commit(&mut client, a).unwrap();
    WlSurface::commit(&mut client, parent).unwrap();
    assert_eq!(WlSurface::find_surface_at(&client, parent, 15, 15), Some((parent, 15, 15)));
    client.surfaces[parent].input_region = Some(Region::new(Rect::new(50, 50, 100, 100).unwrap()));
    assert!(!client.surfaces[parent].accepts_input_at(15, 15));
    assert!(client.surfaces[parent].accepts_input_at(60, 60));
    assert_eq!(WlSurface::find_surface_at(&client, parent, 15, 15), Some((a, 5, 5)));
}

#[test]
fn restacking_needs_a_sibling() {
    let (mut client, parent, a, _b) = stacked();
    let stranger = client.create_surface(9, 6);
    assert_eq!(
        WlSubsurface::place_above(&mut client, a, stranger, 3),
        Err(WlSubsurfaceError::NotASibling(2, 9))
    );
    assert_eq!(
        WlSubsurface::place_above(&mut client, a, a, 3),
        Err(WlSubsurfaceError::NotASibling(2, 2))
    );
    assert_eq!(
        WlSubsurface::place_below(&mut client, parent, a, 3),
        Err(WlSubsurfaceError::NotASubsurface(1))
    );
    assert_eq!(client.stack.len(), 2);
}

#[test]
fn a_surface_tells_of_its_output() {
    let (mut client, parent, child) = parent_and_child();
    client.surfaces[child].version = 5;
    let output =
        OutputState { id: 7, scale: Scale(240), legacy_scale: 2, transform: Transform::Rotate90 };
    WlSurface::set_output(&mut client, parent, output);
    assert_eq!(client.surfaces[parent].output, output);
    assert_eq!(client.surfaces[child].output, output);
    assert_eq!(
        client.events,
        vec![
            Event::Enter { surface: parent, output: 7 },
            Event::Leave { surface: parent, output: 0 },
            Event::PreferredBufferScale { surface: parent, factor: 2 },
            Event::PreferredBufferTransform { surface: parent, transform: 1 },
            Event::Enter { surface: child, output: 7 },
            Event::Leave { surface: child, output: 0 },
        ]
    );
    client.take_events();
    WlSurface::set_output(&mut client, parent, output);
    assert!(client.events.is_empty());
    SurfaceSendPreferredScaleVisitor.visit_surface(&mut client, parent);
    assert_eq!(client.events, vec![Event::PreferredBufferScale { surface: parent, factor: 2 }]);
    client.take_events();
    client.surfaces[child].version = 6;
    SurfaceSendPreferredTransformVisitor.visit_surface(&mut client, parent);
    assert_eq!(
        client.events,
        vec![
            Event::PreferredBufferTransform { surface: parent, transform: 1 },
            Event::PreferredBufferTransform { surface: child, transform: 1 },
        ]
    );
    client.take_events();
    WlSurface::send_enter(&mut client, child, 3);
    WlSurface::send_leave(&mut client, child, 4);
    assert_eq!(
        client.events,
        vec![Event::Enter { surface: child, output: 3 }, Event::Leave { surface: child, output: 4 }]
    );
}

#[test]
fn a_shift_of_the_parent_takes_the_children_along() {
    let mut client = Client::new(true);
    let parent = client.create_surface(1, 4);
    let child = client.create_surface(2, 4);
    WlSubsurface::install(&mut client, child, parent, 100, 1).unwrap();
    attach(&mut client, child, 2, 10, 10);
    WlSubsurface::set_position(&mut client, child, 20, 30);
    WlSurface::commit(&mut client, child).unwrap();
    client.live_buffers.create(1);
    WlSurface::attach(&mut client, parent, Some(buffer(1, 100, 100)), 5, 6).unwrap();
    WlSurface::commit(&mut client, parent).unwrap();
    assert_eq!(client.surfaces[parent].buffer_abs_pos, Rect::new_sized(5, 6, 100, 100).unwrap());
    assert_eq!(client.surfaces[child].buffer_abs_pos, Rect::new_sized(25, 36, 10, 10).unwrap());
}
