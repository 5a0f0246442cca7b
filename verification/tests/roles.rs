use jay::client::{Client, DndIcon, Event, PresentationFeedback};
use jay::fixed::Fixed;
use jay::ifs::wl_surface::pending::SrcRect;
use jay::ifs::wl_surface::wp_linux_drm_syncobj_surface_v1::{
    WpLinuxDrmSyncobjSurfaceV1, WpLinuxDrmSyncobjSurfaceV1Error,
};
use jay::ifs::wl_surface::wp_viewport::{WpViewport, WpViewportError};
use jay::gfx_api::SyncObjPoint;
use jay::ifs::wl_buffer::WlBuffer;
use jay::ifs::wl_surface::pending::{PendingLayerSurfaceData, PendingXdgSurfaceData};
use jay::ifs::wl_surface::requests::{FindTreeResult, FoundNode};
use jay::ifs::wl_surface::wl_subsurface::WlSubsurface;
use jay::ifs::wl_surface::{SurfaceExt, SurfaceRole, WlSurface, WlSurfaceError};
use jay::rect::Rect;

fn attach(client: &mut Client, s: usize, id: u32, w: i32, h: i32) {
    client.live_buffers.create(id);
    WlSurface::attach(client, s, Some(WlBuffer::new(id, w, h, false).unwrap()), 0, 0).unwrap();
}

#[test]
fn role_objects_outside_are_told_of_their_state() {
    let mut client = Client::new(true);
    let s = client.create_surface(1, 6);
    client.surfaces[s].ext = SurfaceExt::Other;
    let geometry = Rect::new(1, 2, 30, 40).unwrap();
    client.pending[s].xdg_surface = Some(PendingXdgSurfaceData { geometry: Some(geometry) });
    client.pending[s].layer_surface = Some(PendingLayerSurfaceData { size: Some((7, 8)) });
    WlSurface::commit(&mut client, s).unwrap();
    assert_eq!(
        client.events,
        vec![
            Event::XdgGeometry { surface: s, geometry },
            Event::LayerSize { surface: s, width: 7, height: 8 },
            Event::Damage,
        ]
    );
    client.take_events();
    client.pending[s].xdg_surface = Some(PendingXdgSurfaceData { geometry: None });
    WlSurface::commit(&mut client, s).unwrap();
    assert_eq!(client.events, vec![Event::Damage]);
}

#[test]
fn a_surface_of_the_x_server_gets_its_role_once() {
    let mut client = Client::new(true);
    let s = client.create_surface(1, 6);
    assert_eq!(WlSurface::get_xsurface(&mut client, s), Ok(()));
    assert_eq!(client.surfaces[s].role, SurfaceRole::XSurface);
    assert!(client.surfaces[s].ext.is_some());
    assert_eq!(WlSurface::get_xsurface(&mut client, s), Ok(()));
    let other = client.create_surface(2, 6);
    client.surfaces[other].set_role(SurfaceRole::Cursor).unwrap();
    assert_eq!(
        WlSurface::get_xsurface(&mut client, other),
        Err(WlSurfaceError::IncompatibleRole {
            id: 2,
            old: SurfaceRole::Cursor,
            new: SurfaceRole::XSurface
        })
    );
    assert!(client.surfaces[other].ext.is_none());
}

#[test]
fn an_icon_is_visible_while_a_seat_drags_it() {
    let mut client = Client::new(true);
    let s = client.create_surface(1, 6);
    WlSurface::set_dnd_icon_seat(&mut client, s, 1, true, true);
    assert!(client.surfaces[s].visible);
    assert_eq!(client.dnd_icons, vec![DndIcon { surface: s, seat: 1 }]);
    WlSurface::set_dnd_icon_seat(&mut client, s, 2, true, true);
    WlSurface::set_dnd_icon_seat(&mut client, s, 1, true, true);
    assert_eq!(client.dnd_icons.len(), 2);
    WlSurface::set_dnd_icon_seat(&mut client, s, 1, false, true);
    assert!(client.surfaces[s].visible);
    WlSurface::set_dnd_icon_seat(&mut client, s, 2, false, true);
    assert!(!client.surfaces[s].visible);
    assert!(client.dnd_icons.is_empty());
    WlSurface::set_dnd_icon_seat(&mut client, s, 1, true, false);
    assert!(!client.surfaces[s].visible);
}

#[test]
fn children_are_listed_and_found() {
    let mut client = Client::new(true);
    let parent = client.create_surface(1, 6);
    let a = client.create_surface(2, 6);
    let stranger = client.create_surface(3, 6);
    let b = client.create_surface(4, 6);
    WlSubsurface::install(&mut client, a, parent, 1, 1).unwrap();
    WlSubsurface::install(&mut client, b, parent, 2, 2).unwrap();
    assert_eq!(WlSurface::node_visit_children(&client, parent), vec![a, b]);
    assert!(WlSurface::node_visit_children(&client, stranger).is_empty());
    attach(&mut client, parent, 1, 10, 10);
    WlSurface::commit(&mut client, parent).unwrap();
    let mut tree = vec![];
    assert_eq!(
        WlSurface::find_tree_at_(&client, parent, 3, 4, &mut tree),
        FindTreeResult::AcceptsInput
    );
    assert_eq!(tree, vec![FoundNode { node: parent, x: 3, y: 4 }]);
    assert_eq!(WlSurface::find_tree_at_(&client, parent, 30, 4, &mut tree), FindTreeResult::Other);
    assert_eq!(tree.len(), 1);
}

#[test]
fn breaking_loops_cuts_every_tie() {
    let mut client = Client::new(true);
    let s = client.create_surface(1, 6);
    let child = client.create_surface(2, 6);
    WlSubsurface::install(&mut client, child, s, 1, 1).unwrap();
    client.surfaces[s].sync_obj_surface = true;
    WlSurface::get_cursor(&mut client, s, 1).unwrap();
    WlSurface::set_dnd_icon_seat(&mut client, s, 1, true, true);
    attach(&mut client, s, 1, 10, 10);
    let acquire = SyncObjPoint { sync_obj: 1, point: 1 };
    let release = SyncObjPoint { sync_obj: 1, point: 2 };
    client.pending[s].record_explicit_sync_points(Some(acquire), Some(release));
    WlSurface::commit(&mut client, s).unwrap();
    jay::ifs::wl_surface::commit_timeline::CommitTimeline::fence_ready(&mut client, s).unwrap();
    attach(&mut client, s, 2, 10, 10);
    let release2 = SyncObjPoint { sync_obj: 1, point: 4 };
    client.pending[s].record_explicit_sync_points(Some(acquire), Some(release2));
    WlSurface::frame(&mut client, s, 9);
    WlSurface::commit(&mut client, s).unwrap();
    client.presentation_feedback.push(PresentationFeedback { surface: s, feedback: 3 });
    WlSurface::damage(&mut client, s);
    client.take_events();
    WlSurface::break_loops(&mut client, s);
    assert!(client.cursors.is_empty());
    assert!(client.dnd_icons.is_empty());
    assert!(client.presentation_feedback.is_empty());
    assert!(client.frame_requests.is_empty());
    assert!(client.surfaces[s].buffer.is_none());
    assert!(client.surfaces[s].ext.is_none());
    assert!(client.surfaces[child].ext.is_none());
    assert!(!client.surfaces[s].visible);
    assert!(!client.commit_timelines[s].is_awaiting());
    assert!(!client.pending[s].damage);
    assert_eq!(
        client.events,
        vec![
            Event::VisibilityChanged { surface: s, visible: false },
            Event::VisibilityChanged { surface: child, visible: false },
            Event::Damage,
            Event::SignalPoint { point: release },
            Event::SignalPoint { point: release2 },
        ]
    );
}

#[test]
fn viewport_requests_check_their_values() {
    let mut client = Client::new(true);
    let s = client.create_surface(1, 6);
    let f = Fixed::from_int;
    assert_eq!(
        WpViewport::set_source(&mut client, s, f(-1), f(0), f(10), f(10)),
        Err(WpViewportError::InvalidSourceRect)
    );
    assert_eq!(
        WpViewport::set_source(&mut client, s, f(0), f(0), f(0), f(10)),
        Err(WpViewportError::InvalidSourceRect)
    );
    assert_eq!(
        WpViewport::set_source(&mut client, s, f(0), f(0), f(10), f(-1)),
        Err(WpViewportError::InvalidSourceRect)
    );
    assert!(client.pending[s].src_rect.is_none());
    assert_eq!(WpViewport::set_source(&mut client, s, f(1), f(2), Fixed(2688), f(20)), Ok(()));
    assert_eq!(
        client.pending[s].src_rect,
        Some(Some(SrcRect { x: f(1), y: f(2), width: Fixed(2688), height: f(20) }))
    );
    assert_eq!(WpViewport::set_source(&mut client, s, f(-1), f(-1), f(-1), f(-1)), Ok(()));
    assert_eq!(client.pending[s].src_rect, Some(None));
    assert_eq!(
        WpViewport::set_destination(&mut client, s, 0, 10),
        Err(WpViewportError::InvalidDestRect)
    );
    assert_eq!(
        WpViewport::set_destination(&mut client, s, -1, 10),
        Err(WpViewportError::InvalidDestRect)
    );
    assert!(client.pending[s].dst_size.is_none());
    assert_eq!(WpViewport::set_destination(&mut client, s, 10, 20), Ok(()));
    assert_eq!(client.pending[s].dst_size, Some(Some((10, 20))));
    assert_eq!(WpViewport::set_destination(&mut client, s, -1, -1), Ok(()));
    assert_eq!(client.pending[s].dst_size, Some(None));
    WpViewport::set_destination(&mut client, s, 10, 20).unwrap();
    WlSurface::commit(&mut client, s).unwrap();
    assert_eq!(client.surfaces[s].dst_size, Some((10, 20)));
    WpViewport::destroy(&mut client, s);
    WlSurface::commit(&mut client, s).unwrap();
    assert_eq!(client.surfaces[s].dst_size, None);
    assert_eq!(client.surfaces[s].src_rect, None);
}

#[test]
fn sync_points_need_the_sync_object() {
    let mut client = Client::new(true);
    let s = client.create_surface(1, 6);
    let point = SyncObjPoint { sync_obj: 1, point: 1 };
    assert_eq!(
        WpLinuxDrmSyncobjSurfaceV1::set_acquire_point(&mut client, s, point),
        Err(WpLinuxDrmSyncobjSurfaceV1Error::NoSurface)
    );
    assert_eq!(
        WpLinuxDrmSyncobjSurfaceV1::set_release_point(&mut client, s, point),
        Err(WpLinuxDrmSyncobjSurfaceV1Error::NoSurface)
    );
    assert_eq!(WpLinuxDrmSyncobjSurfaceV1::install(&mut client, s), Ok(()));
    assert_eq!(
        WpLinuxDrmSyncobjSurfaceV1::install(&mut client, s),
        Err(WpLinuxDrmSyncobjSurfaceV1Error::SurfaceExists)
    );
    assert_eq!(WpLinuxDrmSyncobjSurfaceV1::set_acquire_point(&mut client, s, point), Ok(()));
    attach(&mut client, s, 1, 10, 10);
    assert_eq!(WlSurface::commit(&mut client, s), Err(WlSurfaceError::MissingSyncPoints));
    let release = SyncObjPoint { sync_obj: 1, point: 2 };
    assert_eq!(WpLinuxDrmSyncobjSurfaceV1::set_release_point(&mut client, s, release), Ok(()));
    assert_eq!(WlSurface::commit(&mut client, s), Ok(()));
    assert!(client.commit_timelines[s].is_awaiting());
    WpLinuxDrmSyncobjSurfaceV1::set_acquire_point(&mut client, s, point).unwrap();
    WpLinuxDrmSyncobjSurfaceV1::destroy(&mut client, s);
    assert!(!client.surfaces[s].sync_obj_surface);
    assert!(client.pending[s].acquire_point.is_none());
}

#[test]
fn children_are_listed_by_band() {
    let mut client = Client::new(true);
    let parent = client.create_surface(1, 6);
    let a = client.create_surface(2, 6);
    let b = client.create_surface(3, 6);
    assert!(WlSurface::children(&client, parent).is_none());
    WlSubsurface::install(&mut client, a, parent, 1, 1).unwrap();
    WlSubsurface::install(&mut client, b, parent, 2, 2).unwrap();
    WlSubsurface::place_below(&mut client, b, parent, 3).unwrap();
    let data = WlSurface::children(&client, parent).unwrap();
    assert_eq!(data.above.iter().map(|e| e.sub_surface).collect::<Vec<_>>(), vec![a, b]);
    assert_eq!(data.below.iter().map(|e| (e.sub_surface, e.pending)).collect::<Vec<_>>(), vec![(b, true)]);
    assert!(WlSurface::children(&client, a).is_none());
}

#[test]
fn detaching_a_node_asks_to_draw_again() {
    let mut client = Client::new(true);
    let s = client.create_surface(1, 6);
    WlSurface::detach_node(&mut client, s, false);
    assert!(client.events.is_empty());
    WlSurface::set_visible(&mut client, s, true);
    client.take_events();
    WlSurface::detach_node(&mut client, s, false);
    assert_eq!(client.events, vec![Event::Damage]);
    assert!(client.surfaces[s].visible);
    client.take_events();
    WlSurface::detach_node(&mut client, s, true);
    assert_eq!(
        client.events,
        vec![Event::VisibilityChanged { surface: s, visible: false }, Event::Damage]
    );
    assert!(!client.surfaces[s].visible);
}
