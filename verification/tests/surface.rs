use jay::client::{Client, Event, FrameRequest, PresentationFeedback};
use jay::fixed::Fixed;
use jay::gfx_api::{AcquireSync, BufferResvUser, ReleaseSync, SampleRect, SyncFile, SyncObjPoint};
use jay::ifs::wl_buffer::WlBuffer;
use jay::ifs::wl_surface::commit_timeline::{ClearReason, CommitTimeline};
use jay::ifs::wl_surface::pending::{PendingState, SrcRect};
use jay::ifs::wl_surface::requests::Request;
use jay::ifs::wl_surface::{
    buffer_size, ceil_div_i32, sample_of, scaled_points, BufferPoints, CommitTimelineError,
    NoneSurfaceExt, SurfaceBuffer, SurfaceExt, SurfaceRole, WlSurface, WlSurfaceError,
};
use jay::rect::{Rect, Region};
use jay::transform::Transform;

fn buffer(id: u32, w: i32, h: i32) -> WlBuffer {
    WlBuffer::new(id, w, h, false).unwrap()
}

fn client_with_surface(version: u32) -> (Client, usize) {
    let mut client = Client::new(true);
    let s = client.create_surface(1, version);
    (client, s)
}

fn is_release(e: &Event) -> bool {
    matches!(e, Event::SendRelease { .. } | Event::SignalPoint { .. } | Event::ReleaseImported { .. })
}

fn releases(events: &[Event]) -> usize {
    events.iter().filter(|e| is_release(e)).count()
}

fn attach(client: &mut Client, s: usize, id: u32, w: i32, h: i32) {
    client.live_buffers.create(id);
    WlSurface::attach(client, s, Some(buffer(id, w, h)), 0, 0).unwrap();
}

#[test]
fn role_names() {
    assert_eq!(SurfaceRole::Unassigned.name(), "none");
    assert_eq!(SurfaceRole::Subsurface.name(), "subsurface");
    assert_eq!(SurfaceRole::XdgSurface.name(), "xdg_surface");
    assert_eq!(SurfaceRole::Cursor.name(), "cursor");
    assert_eq!(SurfaceRole::DndIcon.name(), "dnd_icon");
    assert_eq!(SurfaceRole::ZwlrLayerSurface.name(), "zwlr_layer_surface");
    assert_eq!(SurfaceRole::XSurface.name(), "xwayland surface");
    assert_eq!(SurfaceRole::ExtSessionLockSurface.name(), "ext_session_lock_surface");
}

#[test]
fn a_role_is_kept_for_good() {
    let mut surface = WlSurface::new(3, 6);
    assert_eq!(surface.role, SurfaceRole::Unassigned);
    assert_eq!(surface.set_role(SurfaceRole::XdgSurface), Ok(()));
    assert_eq!(surface.set_role(SurfaceRole::XdgSurface), Ok(()));
    assert_eq!(
        surface.set_role(SurfaceRole::Cursor),
        Err(WlSurfaceError::IncompatibleRole {
            id: 3,
            old: SurfaceRole::XdgSurface,
            new: SurfaceRole::Cursor
        })
    );
    assert_eq!(surface.role, SurfaceRole::XdgSurface);
    assert!(!surface.is_cursor());
}

#[test]
fn a_new_surface_has_the_defaults() {
    let surface = WlSurface::new(3, 6);
    assert_eq!(surface.buffer_scale, 1);
    assert_eq!(surface.buffer_transform, Transform::Normal);
    assert!(surface.buffer.is_none());
    assert!(surface.src_rect.is_none() && surface.dst_size.is_none());
    assert_eq!(surface.buffer_points_norm, SampleRect::identity());
    assert!(surface.buffer_points_norm.is_covering());
    assert!(!surface.destroyed);
    assert!(!surface.node_visible());
    assert_eq!(surface.node_absolute_position(), Rect::new_empty(0, 0));
    assert_eq!(surface.xwayland_serial(), None);
    assert!(surface.ext.is_none());
    assert!(!surface.ext.is_some());
    assert_eq!(surface.ext.subsurface_parent(), None);
    assert!(NoneSurfaceExt.is_none());
    assert!(!NoneSurfaceExt.is_some());
    assert_eq!(NoneSurfaceExt.on_surface_destroy(), Ok(()));
}

#[test]
fn ceil_division() {
    assert_eq!(ceil_div_i32(0, 3), 0);
    assert_eq!(ceil_div_i32(9, 3), 3);
    assert_eq!(ceil_div_i32(10, 3), 4);
    assert_eq!(ceil_div_i32(i32::MAX, 1), i32::MAX);
    assert_eq!(ceil_div_i32(i32::MAX, i32::MAX), 1);
}

#[test]
fn buffer_size_follows_transform_and_scale() {
    let b = buffer(1, 101, 50);
    assert_eq!(buffer_size(b, Transform::Normal, 1), (101, 50));
    assert_eq!(buffer_size(b, Transform::Rotate90, 1), (50, 101));
    assert_eq!(buffer_size(b, Transform::Normal, 2), (51, 25));
    assert_eq!(buffer_size(b, Transform::FlipRotate270, 3), (17, 34));
}

#[test]
fn source_rectangle_in_buffer_pixels() {
    let src = SrcRect { x: Fixed(256), y: Fixed(512), width: Fixed(2688), height: Fixed(5120) };
    assert_eq!(
        scaled_points(src, 2),
        BufferPoints { x1: 512, y1: 1024, x2: 5888, y2: 11264 }
    );
    let sample = sample_of(scaled_points(src, 1), buffer(1, 100, 50), Transform::Rotate90);
    assert_eq!(sample.width, 50 * 256);
    assert_eq!(sample.height, 100 * 256);
    assert_eq!((sample.x1, sample.y1, sample.x2, sample.y2), (256, 512, 2944, 5632));
    assert_eq!(sample.buffer_transform, Transform::Rotate90);
}

#[test]
fn commit_applies_a_buffer() {
    let (mut client, s) = client_with_surface(6);
    attach(&mut client, s, 10, 100, 50);
    WlSurface::frame(&mut client, s, 77);
    WlSurface::add_presentation_feedback(&mut client, s, 88);
    WlSurface::damage(&mut client, s);
    assert!(client.surfaces[s].buffer.is_none());
    assert_eq!(WlSurface::commit(&mut client, s), Ok(()));
    let surface = &client.surfaces[s];
    assert_eq!(
        surface.buffer,
        Some(SurfaceBuffer {
            buffer: buffer(10, 100, 50),
            sync: AcquireSync::Implicit,
            release_sync: ReleaseSync::Implicit,
            release: None,
        })
    );
    assert_eq!(surface.buffer_abs_pos, Rect::new_sized(0, 0, 100, 50).unwrap());
    assert_eq!(surface.extents, Rect::new_sized(0, 0, 100, 50).unwrap());
    assert!(!surface.need_extents_update);
    assert_eq!(surface.buffer_points_norm, SampleRect::covering(Transform::Normal));
    assert_eq!(client.frame_requests, vec![FrameRequest { surface: s, callback: 77 }]);
    assert_eq!(
        client.presentation_feedback,
        vec![PresentationFeedback { surface: s, feedback: 88 }]
    );
    assert_eq!(client.events, vec![Event::UpdateTexture { buffer: 10 }, Event::Damage]);
    assert!(client.pending[s].buffer.is_none());
    assert!(client.pending[s].frame_request.is_empty());
    assert!(!client.pending[s].damage);
}

#[test]
fn commit_without_changes_only_asks_to_draw_again() {
    let (mut client, s) = client_with_surface(6);
    assert_eq!(WlSurface::commit(&mut client, s), Ok(()));
    assert_eq!(client.events, vec![Event::Damage]);
    assert!(client.surfaces[s].buffer.is_none());
}

#[test]
fn scale_and_transform_shape_the_surface() {
    let (mut client, s) = client_with_surface(6);
    attach(&mut client, s, 10, 101, 50);
    WlSurface::set_buffer_scale(&mut client, s, 2).unwrap();
    WlSurface::set_buffer_transform(&mut client, s, 1).unwrap();
    WlSurface::commit(&mut client, s).unwrap();
    let surface = &client.surfaces[s];
    assert_eq!(surface.buffer_scale, 2);
    assert_eq!(surface.buffer_transform, Transform::Rotate90);
    assert_eq!(surface.buffer_abs_pos.size(), (25, 51));
    assert_eq!(surface.buffer_points_norm, SampleRect::covering(Transform::Rotate90));
}

#[test]
fn requests_check_their_arguments() {
    let (mut client, s) = client_with_surface(6);
    assert_eq!(
        WlSurface::set_buffer_scale(&mut client, s, 0),
        Err(WlSurfaceError::NonPositiveBufferScale)
    );
    assert_eq!(
        WlSurface::set_buffer_scale(&mut client, s, -1),
        Err(WlSurfaceError::NonPositiveBufferScale)
    );
    assert_eq!(
        WlSurface::set_buffer_transform(&mut client, s, 8),
        Err(WlSurfaceError::UnknownBufferTransform(8))
    );
    assert_eq!(
        WlSurface::attach(&mut client, s, None, 1, 0),
        Err(WlSurfaceError::OffsetInAttach)
    );
    assert!(client.pending[s].scale.is_none());
    assert!(client.pending[s].transform.is_none());
    assert!(client.pending[s].buffer.is_none());
    assert_eq!(WlSurface::set_buffer_transform(&mut client, s, 7), Ok(()));
    assert_eq!(client.pending[s].transform, Some(Transform::FlipRotate270));
}

#[test]
fn requests_are_gated_by_version() {
    let (mut client, s) = client_with_surface(1);
    let invalid = Err(WlSurfaceError::ClientError(jay::client::ClientError::InvalidMethod));
    assert_eq!(
        WlSurface::handle_request(&mut client, s, Request::SetBufferTransform { transform: 0 }),
        invalid
    );
    assert_eq!(
        WlSurface::handle_request(&mut client, s, Request::SetBufferScale { scale: 1 }),
        invalid
    );
    assert_eq!(WlSurface::handle_request(&mut client, s, Request::DamageBuffer), invalid);
    assert_eq!(WlSurface::handle_request(&mut client, s, Request::Offset { x: 1, y: 1 }), invalid);
    assert_eq!(WlSurface::handle_request(&mut client, s, Request::Damage), Ok(()));
    assert!(client.pending[s].damage);
    assert_eq!(WlSurface::handle_request(&mut client, s, Request::Frame { callback: 4 }), Ok(()));
    assert_eq!(WlSurface::handle_request(&mut client, s, Request::Commit), Ok(()));
    let (mut client, s) = client_with_surface(5);
    assert_eq!(WlSurface::handle_request(&mut client, s, Request::Offset { x: 1, y: 2 }), Ok(()));
    assert_eq!(client.pending[s].offset, (1, 2));
    assert_eq!(
        WlSurface::handle_request(
            &mut client,
            s,
            Request::SetInputRegion { region: Some(Region::empty()) }
        ),
        Ok(())
    );
    assert_eq!(
        WlSurface::handle_request(&mut client, s, Request::SetOpaqueRegion { region: None }),
        Ok(())
    );
    assert_eq!(Request::Commit.since(), 1);
    assert_eq!(Request::Offset { x: 0, y: 0 }.since(), 5);
}

#[test]
fn offsets_accumulate_until_the_commit() {
    let (mut client, s) = client_with_surface(4);
    client.live_buffers.create(10);
    WlSurface::attach(&mut client, s, Some(buffer(10, 100, 100)), 3, 4).unwrap();
    WlSurface::offset(&mut client, s, 1, 1);
    assert_eq!(client.pending[s].offset, (4, 5));
    WlSurface::commit(&mut client, s).unwrap();
    assert_eq!((client.surfaces[s].buf_x, client.surfaces[s].buf_y), (4, 5));
    assert_eq!(client.surfaces[s].buffer_abs_pos, Rect::new_sized(4, 5, 100, 100).unwrap());
    assert_eq!(client.pending[s].offset, (0, 0));
    client.live_buffers.create(11);
    WlSurface::attach(&mut client, s, Some(buffer(11, 100, 100)), -1, 2).unwrap();
    WlSurface::commit(&mut client, s).unwrap();
    assert_eq!((client.surfaces[s].buf_x, client.surfaces[s].buf_y), (3, 7));
    assert_eq!(client.surfaces[s].buffer_abs_pos, Rect::new_sized(3, 7, 100, 100).unwrap());
}

#[test]
fn an_offset_without_a_buffer_is_dropped() {
    let (mut client, s) = client_with_surface(5);
    WlSurface::offset(&mut client, s, 7, 7);
    WlSurface::commit(&mut client, s).unwrap();
    assert_eq!((client.surfaces[s].buf_x, client.surfaces[s].buf_y), (0, 0));
}

#[test]
fn removing_the_buffer_resets_the_shift() {
    let (mut client, s) = client_with_surface(4);
    client.live_buffers.create(10);
    WlSurface::attach(&mut client, s, Some(buffer(10, 100, 100)), 3, 4).unwrap();
    WlSurface::commit(&mut client, s).unwrap();
    WlSurface::attach(&mut client, s, None, 0, 0).unwrap();
    WlSurface::commit(&mut client, s).unwrap();
    assert_eq!((client.surfaces[s].buf_x, client.surfaces[s].buf_y), (0, 0));
    assert!(client.surfaces[s].buffer.is_none());
    assert_eq!(client.surfaces[s].buffer_abs_pos.size(), (0, 0));
}

fn set_viewport(client: &mut Client, s: usize, src: Option<SrcRect>, dst: Option<(i32, i32)>) {
    client.pending[s].record_viewport(src.map(Some), dst.map(Some));
}

#[test]
fn a_fractional_source_needs_a_destination_size() {
    let src = SrcRect { x: Fixed(0), y: Fixed(0), width: Fixed(2688), height: Fixed(5120) };
    let (mut client, s) = client_with_surface(6);
    attach(&mut client, s, 10, 100, 100);
    set_viewport(&mut client, s, Some(src), None);
    assert_eq!(WlSurface::commit(&mut client, s), Err(WlSurfaceError::NonIntegerViewportSize));
    assert!(client.surfaces[s].src_rect.is_none());
    assert!(client.surfaces[s].buffer.is_none());

    let (mut client, s) = client_with_surface(6);
    attach(&mut client, s, 10, 100, 100);
    set_viewport(&mut client, s, Some(src), Some((10, 20)));
    assert_eq!(WlSurface::commit(&mut client, s), Ok(()));
    assert_eq!(client.surfaces[s].src_rect, Some(src));
    assert_eq!(client.surfaces[s].dst_size, Some((10, 20)));
    assert_eq!(client.surfaces[s].buffer_abs_pos.size(), (10, 20));
    let sample = client.surfaces[s].buffer_points_norm;
    assert_eq!((sample.x1, sample.y1, sample.x2, sample.y2), (0, 0, 2688, 5120));
    assert_eq!((sample.width, sample.height), (25600, 25600));
}

#[test]
fn a_whole_source_gives_the_size() {
    let src = SrcRect { x: Fixed(256), y: Fixed(256), width: Fixed(2560), height: Fixed(5120) };
    let (mut client, s) = client_with_surface(6);
    attach(&mut client, s, 10, 100, 100);
    set_viewport(&mut client, s, Some(src), None);
    assert_eq!(WlSurface::commit(&mut client, s), Ok(()));
    assert_eq!(client.surfaces[s].buffer_abs_pos.size(), (10, 20));
    assert_eq!(
        client.surfaces[s].buffer_points,
        BufferPoints { x1: 256, y1: 256, x2: 2816, y2: 5376 }
    );
}

#[test]
fn a_crop_beyond_the_buffer_is_refused() {
    let src = SrcRect { x: Fixed(0), y: Fixed(0), width: Fixed(200 * 256), height: Fixed(200 * 256) };
    let (mut client, s) = client_with_surface(6);
    attach(&mut client, s, 10, 100, 100);
    set_viewport(&mut client, s, Some(src), None);
    assert_eq!(WlSurface::commit(&mut client, s), Err(WlSurfaceError::ViewportOutsideBuffer));
    assert!(client.surfaces[s].buffer.is_none());
    assert!(client.events.iter().all(|e| !matches!(e, Event::UpdateTexture { .. })));
}

#[test]
fn a_crop_that_just_fits_is_accepted() {
    let src = SrcRect { x: Fixed(0), y: Fixed(0), width: Fixed(100 * 256), height: Fixed(100 * 256) };
    let (mut client, s) = client_with_surface(6);
    attach(&mut client, s, 10, 100, 100);
    set_viewport(&mut client, s, Some(src), None);
    assert_eq!(WlSurface::commit(&mut client, s), Ok(()));
    let over = SrcRect { x: Fixed(1), y: Fixed(0), width: Fixed(100 * 256), height: Fixed(256) };
    set_viewport(&mut client, s, Some(over), None);
    assert_eq!(WlSurface::commit(&mut client, s), Err(WlSurfaceError::ViewportOutsideBuffer));
    assert_eq!(client.surfaces[s].src_rect, Some(src));
}

#[test]
fn the_scale_counts_for_the_crop() {
    let src = SrcRect { x: Fixed(0), y: Fixed(0), width: Fixed(60 * 256), height: Fixed(10 * 256) };
    let (mut client, s) = client_with_surface(6);
    attach(&mut client, s, 10, 100, 100);
    WlSurface::set_buffer_scale(&mut client, s, 2).unwrap();
    set_viewport(&mut client, s, Some(src), None);
    assert_eq!(WlSurface::commit(&mut client, s), Err(WlSurfaceError::ViewportOutsideBuffer));
}

#[test]
fn a_destination_size_alone_gives_the_size() {
    let (mut client, s) = client_with_surface(6);
    attach(&mut client, s, 10, 100, 100);
    set_viewport(&mut client, s, None, Some((30, 40)));
    assert_eq!(WlSurface::commit(&mut client, s), Ok(()));
    assert_eq!(client.surfaces[s].buffer_abs_pos.size(), (30, 40));
    assert!(client.surfaces[s].buffer_points_norm.is_covering());
}

#[test]
fn regions_and_flags_are_taken_over() {
    let (mut client, s) = client_with_surface(6);
    let region = Region::new(Rect::new(0, 0, 5, 5).unwrap());
    WlSurface::set_input_region(&mut client, s, Some(region.clone()));
    WlSurface::set_opaque_region(&mut client, s, Some(region));
    WlSurface::set_content_type(&mut client, s, Some(jay::ifs::wl_surface::pending::ContentType::Video));
    client.pending[s].record_tearing(true);
    client.pending[s].record_xwayland_serial(42);
    WlSurface::commit(&mut client, s).unwrap();
    let surface = &client.surfaces[s];
    assert_eq!(surface.input_region.as_ref().unwrap().rects.len(), 1);
    assert_eq!(surface.opaque_region.as_ref().unwrap().rects.len(), 1);
    assert_eq!(surface.content_type, Some(jay::ifs::wl_surface::pending::ContentType::Video));
    assert!(surface.tearing);
    assert_eq!(surface.xwayland_serial(), Some(42));
    assert_eq!(client.surfaces_by_xwayland_serial.get(42), Some(s));
    assert_eq!(client.surfaces_by_xwayland_serial.get(43), None);
    assert_eq!(
        client.events,
        vec![Event::SurfaceSerialAssigned { surface: s }, Event::Damage]
    );
    WlSurface::set_input_region(&mut client, s, None);
    WlSurface::commit(&mut client, s).unwrap();
    assert!(client.surfaces[s].input_region.is_none());
    assert!(client.surfaces[s].opaque_region.is_some());
}

#[test]
fn feedback_of_an_unpresented_commit_is_discarded() {
    let (mut client, s) = client_with_surface(6);
    WlSurface::add_presentation_feedback(&mut client, s, 1);
    WlSurface::add_presentation_feedback(&mut client, s, 2);
    WlSurface::commit(&mut client, s).unwrap();
    client.take_events();
    WlSurface::add_presentation_feedback(&mut client, s, 3);
    WlSurface::commit(&mut client, s).unwrap();
    assert_eq!(
        client.events,
        vec![
            Event::PresentationDiscarded { feedback: 1 },
            Event::PresentationDiscarded { feedback: 2 },
            Event::Damage
        ]
    );
    assert_eq!(
        client.presentation_feedback,
        vec![PresentationFeedback { surface: s, feedback: 3 }]
    );
}

#[test]
fn every_superseded_buffer_is_released_once() {
    let (mut client, s) = client_with_surface(6);
    for id in [1u32, 2, 3] {
        attach(&mut client, s, id, 10, 10);
        WlSurface::commit(&mut client, s).unwrap();
    }
    assert_eq!(releases(&client.events), 2);
    assert_eq!(
        client.events.iter().filter(|e| is_release(e)).cloned().collect::<Vec<_>>(),
        vec![Event::SendRelease { buffer: 1 }, Event::SendRelease { buffer: 2 }]
    );
    WlSurface::commit(&mut client, s).unwrap();
    assert_eq!(releases(&client.events), 2);
    assert_eq!(WlSurface::destroy(&mut client, s), Ok(()));
    assert_eq!(releases(&client.events), 3);
    assert_eq!(client.events.iter().filter(|e| is_release(e)).last(), Some(&Event::SendRelease { buffer: 3 }));
    assert!(client.surfaces[s].buffer.is_none());
    assert!(client.surfaces[s].destroyed);
}

#[test]
fn the_same_size_keeps_the_sampling() {
    let (mut client, s) = client_with_surface(6);
    attach(&mut client, s, 1, 10, 10);
    WlSurface::commit(&mut client, s).unwrap();
    let before = client.surfaces[s].buffer_points_norm;
    attach(&mut client, s, 2, 10, 10);
    WlSurface::commit(&mut client, s).unwrap();
    assert_eq!(client.surfaces[s].buffer_points_norm, before);
}

#[test]
fn a_destroyed_buffer_gets_no_release() {
    let (mut client, s) = client_with_surface(6);
    attach(&mut client, s, 1, 10, 10);
    WlSurface::commit(&mut client, s).unwrap();
    client.live_buffers.destroy(1);
    attach(&mut client, s, 2, 10, 10);
    WlSurface::commit(&mut client, s).unwrap();
    assert_eq!(releases(&client.events), 0);
}

#[test]
fn release_under_implicit_sync_imports_fences_of_device_buffers() {
    let mut client = Client::new(true);
    let s = client.create_surface(1, 6);
    client.live_buffers.create(1);
    WlSurface::attach(&mut client, s, Some(WlBuffer::new(1, 10, 10, true).unwrap()), 0, 0).unwrap();
    WlSurface::commit(&mut client, s).unwrap();
    WlSurface::set_sync_file(&mut client, s, BufferResvUser(1), SyncFile(100));
    WlSurface::set_sync_file(&mut client, s, BufferResvUser(2), SyncFile(200));
    WlSurface::set_sync_file(&mut client, s, BufferResvUser(1), SyncFile(101));
    assert_eq!(client.sync_files.len(), 2);
    client.take_events();
    WlSurface::attach(&mut client, s, None, 0, 0).unwrap();
    WlSurface::commit(&mut client, s).unwrap();
    assert_eq!(
        client.events,
        vec![
            Event::ImportIntoBuffer { buffer: 1, sync_file: SyncFile(101) },
            Event::ImportIntoBuffer { buffer: 1, sync_file: SyncFile(200) },
            Event::SendRelease { buffer: 1 },
            Event::Damage,
        ]
    );
    assert!(client.sync_files.is_empty());
}

#[test]
fn release_protocol_cases() {
    let point = SyncObjPoint { sync_obj: 1, point: 5 };
    let mut live = jay::client::LiveBuffers::new();
    live.create(1);
    let explicit = SurfaceBuffer {
        buffer: buffer(1, 10, 10),
        sync: AcquireSync::Unnecessary,
        release_sync: ReleaseSync::Explicit,
        release: Some(point),
    };
    let mut events = Vec::new();
    explicit.release(&vec![], true, &live, &mut events);
    assert_eq!(events, vec![Event::SignalPoint { point }]);

    let mut events = Vec::new();
    explicit.release(&vec![SyncFile(1), SyncFile(2)], true, &live, &mut events);
    assert_eq!(
        events,
        vec![
            Event::ImportIntoPoint { point, sync_file: SyncFile(1) },
            Event::ImportIntoPoint { point, sync_file: SyncFile(2) },
            Event::ReleaseImported { point },
        ]
    );
    assert_eq!(releases(&events), 1);

    let mut events = Vec::new();
    explicit.release(&vec![SyncFile(1)], false, &live, &mut events);
    assert_eq!(events, vec![Event::MissingRenderContext { point }]);

    let shm = SurfaceBuffer {
        buffer: buffer(1, 10, 10),
        sync: AcquireSync::Implicit,
        release_sync: ReleaseSync::Implicit,
        release: None,
    };
    let mut events = Vec::new();
    shm.release(&vec![SyncFile(1)], true, &live, &mut events);
    assert_eq!(events, vec![Event::SendRelease { buffer: 1 }]);

    assert_eq!(SurfaceBuffer::import_failed(point, true), None);
    assert_eq!(SurfaceBuffer::import_failed(point, false), Some(Event::SignalPoint { point }));
}

fn explicit_client() -> (Client, usize) {
    let (mut client, s) = client_with_surface(6);
    client.surfaces[s].sync_obj_surface = true;
    (client, s)
}

const ACQUIRE: SyncObjPoint = SyncObjPoint { sync_obj: 1, point: 1 };
const RELEASE: SyncObjPoint = SyncObjPoint { sync_obj: 1, point: 2 };

#[test]
fn explicit_sync_needs_both_points_with_a_buffer() {
    let (mut client, s) = explicit_client();
    attach(&mut client, s, 1, 10, 10);
    client.pending[s].record_explicit_sync_points(Some(ACQUIRE), None);
    assert_eq!(WlSurface::commit(&mut client, s), Err(WlSurfaceError::MissingSyncPoints));
    assert!(client.surfaces[s].buffer.is_none());

    let (mut client, s) = explicit_client();
    attach(&mut client, s, 1, 10, 10);
    assert_eq!(WlSurface::commit(&mut client, s), Err(WlSurfaceError::MissingSyncPoints));

    let (mut client, s) = explicit_client();
    attach(&mut client, s, 1, 10, 10);
    client.pending[s].record_explicit_sync_points(Some(ACQUIRE), Some(RELEASE));
    assert_eq!(WlSurface::commit(&mut client, s), Ok(()));
}

#[test]
fn explicit_sync_allows_no_points_without_a_buffer() {
    let (mut client, s) = explicit_client();
    client.pending[s].record_explicit_sync_points(None, Some(RELEASE));
    assert_eq!(WlSurface::commit(&mut client, s), Err(WlSurfaceError::UnexpectedSyncPoints));

    let (mut client, s) = explicit_client();
    WlSurface::attach(&mut client, s, None, 0, 0).unwrap();
    client.pending[s].record_explicit_sync_points(Some(ACQUIRE), Some(RELEASE));
    assert_eq!(WlSurface::commit(&mut client, s), Err(WlSurfaceError::UnexpectedSyncPoints));

    let (mut client, s) = explicit_client();
    assert_eq!(WlSurface::commit(&mut client, s), Ok(()));
}

#[test]
fn points_are_not_checked_without_explicit_sync() {
    let (mut client, s) = client_with_surface(6);
    client.pending[s].record_explicit_sync_points(Some(ACQUIRE), None);
    assert_eq!(WlSurface::commit(&mut client, s), Ok(()));
    assert!(!client.commit_timelines[s].is_awaiting());
    let surface = WlSurface::new(1, 6);
    let mut p = PendingState::new();
    p.record_explicit_sync_points(Some(ACQUIRE), Some(RELEASE));
    assert_eq!(surface.verify_explicit_sync(&mut p), Ok(()));
    assert!(!p.explicit_sync);
}

#[test]
fn a_gated_commit_waits_for_its_fence() {
    let (mut client, s) = explicit_client();
    attach(&mut client, s, 1, 10, 10);
    client.pending[s].record_explicit_sync_points(Some(ACQUIRE), Some(RELEASE));
    assert_eq!(WlSurface::commit(&mut client, s), Ok(()));
    assert!(client.commit_timelines[s].is_awaiting());
    assert!(client.surfaces[s].buffer.is_none());
    assert_eq!(client.events, vec![Event::AwaitAcquire { surface: s, point: ACQUIRE }]);
    assert!(client.pending[s].buffer.is_none());

    assert_eq!(CommitTimeline::fence_ready(&mut client, s), Ok(()));
    assert!(!client.commit_timelines[s].is_awaiting());
    assert_eq!(
        client.surfaces[s].buffer,
        Some(SurfaceBuffer {
            buffer: buffer(1, 10, 10),
            sync: AcquireSync::Unnecessary,
            release_sync: ReleaseSync::Explicit,
            release: Some(RELEASE),
        })
    );
    assert_eq!(CommitTimeline::fence_ready(&mut client, s), Ok(()));
}

#[test]
fn a_second_commit_is_refused_while_the_first_waits() {
    let (mut client, s) = explicit_client();
    attach(&mut client, s, 1, 10, 10);
    client.pending[s].record_explicit_sync_points(Some(ACQUIRE), Some(RELEASE));
    assert_eq!(WlSurface::commit(&mut client, s), Ok(()));
    let pending = Err(WlSurfaceError::CommitTimelineError(CommitTimelineError::CommitPending));
    assert_eq!(WlSurface::commit(&mut client, s), pending);
    WlSurface::damage(&mut client, s);
    assert_eq!(WlSurface::commit(&mut client, s), pending);
    assert!(client.pending[s].damage);
    assert!(client.surfaces[s].buffer.is_none());
    CommitTimeline::fence_ready(&mut client, s).unwrap();
    assert_eq!(WlSurface::commit(&mut client, s), Ok(()));
}

#[test]
fn explicit_release_signals_the_point() {
    let (mut client, s) = explicit_client();
    attach(&mut client, s, 1, 10, 10);
    client.pending[s].record_explicit_sync_points(Some(ACQUIRE), Some(RELEASE));
    WlSurface::commit(&mut client, s).unwrap();
    CommitTimeline::fence_ready(&mut client, s).unwrap();
    client.take_events();
    WlSurface::attach(&mut client, s, None, 0, 0).unwrap();
    WlSurface::commit(&mut client, s).unwrap();
    assert_eq!(client.events, vec![Event::SignalPoint { point: RELEASE }, Event::Damage]);
}

#[test]
fn destruction_gives_up_the_waiting_commit() {
    let (mut client, s) = explicit_client();
    attach(&mut client, s, 1, 10, 10);
    client.pending[s].record_explicit_sync_points(Some(ACQUIRE), Some(RELEASE));
    WlSurface::commit(&mut client, s).unwrap();
    client.take_events();
    assert_eq!(WlSurface::destroy(&mut client, s), Ok(()));
    assert!(!client.commit_timelines[s].is_awaiting());
    assert_eq!(client.events, vec![Event::SignalPoint { point: RELEASE }]);
    assert!(client.surfaces[s].destroyed);
    assert_eq!(CommitTimeline::fence_ready(&mut client, s), Ok(()));
    assert!(client.surfaces[s].buffer.is_none());
}

#[test]
fn clearing_a_timeline_without_a_commit_does_nothing() {
    let (mut client, s) = client_with_surface(6);
    CommitTimeline::clear(&mut client, s, ClearReason::BreakLoops);
    assert!(client.events.is_empty());
}

#[test]
fn a_destroyed_surface_takes_no_commit() {
    let (mut client, s) = client_with_surface(6);
    WlSurface::destroy(&mut client, s).unwrap();
    client.take_events();
    attach(&mut client, s, 1, 10, 10);
    assert_eq!(WlSurface::commit(&mut client, s), Ok(()));
    assert!(client.surfaces[s].buffer.is_none());
    assert!(client.events.is_empty());
}

#[test]
fn a_surface_with_a_role_object_cannot_go() {
    let (mut client, s) = client_with_surface(6);
    client.surfaces[s].ext = SurfaceExt::Other;
    assert_eq!(WlSurface::destroy(&mut client, s), Err(WlSurfaceError::ReloObjectStillExists));
    assert!(!client.surfaces[s].destroyed);
}

#[test]
fn destruction_clears_what_hangs_on_the_surface() {
    let (mut client, s) = client_with_surface(6);
    let other = client.create_surface(2, 6);
    WlSurface::get_cursor(&mut client, s, 1).unwrap();
    WlSurface::frame(&mut client, s, 5);
    WlSurface::frame(&mut client, other, 6);
    client.pending[s].record_xwayland_serial(9);
    WlSurface::commit(&mut client, s).unwrap();
    WlSurface::commit(&mut client, other).unwrap();
    assert_eq!(client.cursors.len(), 1);
    assert!(client.surfaces_by_xwayland_serial.contains(9));
    WlSurface::destroy(&mut client, s).unwrap();
    assert!(client.cursors.is_empty());
    assert_eq!(client.frame_requests, vec![FrameRequest { surface: other, callback: 6 }]);
    assert!(!client.surfaces_by_xwayland_serial.contains(9));
}

#[test]
fn cursors_follow_the_content() {
    let (mut client, s) = client_with_surface(4);
    assert_eq!(WlSurface::get_cursor(&mut client, s, 1), Ok(()));
    assert_eq!(WlSurface::get_cursor(&mut client, s, 1), Ok(()));
    assert_eq!(client.cursors.len(), 1);
    assert!(client.surfaces[s].is_cursor());
    client.cursors[0].set_hotspot(10, 10);
    client.take_events();
    client.live_buffers.create(1);
    WlSurface::attach(&mut client, s, Some(buffer(1, 10, 10)), 2, 3).unwrap();
    WlSurface::commit(&mut client, s).unwrap();
    assert_eq!((client.cursors[0].hotspot_x, client.cursors[0].hotspot_y), (8, 7));
    assert!(client.events.contains(&Event::CursorChanged { surface: s, seat: 1 }));
    WlSurface::attach(&mut client, s, None, 0, 0).unwrap();
    WlSurface::commit(&mut client, s).unwrap();
    assert_eq!((client.cursors[0].hotspot_x, client.cursors[0].hotspot_y), (0, 0));
    let other = client.create_surface(2, 4);
    client.surfaces[other].set_role(SurfaceRole::XdgSurface).unwrap();
    assert!(WlSurface::get_cursor(&mut client, other, 1).is_err());
}
