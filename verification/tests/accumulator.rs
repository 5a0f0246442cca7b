use jay::client::{Event, LiveBuffers};
use jay::fixed::Fixed;
use jay::gfx_api::SyncObjPoint;
use jay::ifs::wl_buffer::WlBuffer;
use jay::ifs::wl_surface::pending::{
    CommittedSubsurface, ContentType, PendingState, PendingSubsurfaceData, RegionKind, SrcRect,
};
use jay::rect::{Rect, Region};
use jay::transform::Transform;

fn buffer(id: u32) -> WlBuffer {
    WlBuffer::new(id, 100, 100, false).unwrap()
}

fn live(ids: &[u32]) -> LiveBuffers {
    let mut l = LiveBuffers::new();
    for id in ids {
        l.create(*id);
    }
    l
}

#[test]
fn a_new_accumulator_is_empty() {
    let p = PendingState::new();
    assert!(p.buffer.is_none());
    assert_eq!(p.offset, (0, 0));
    assert!(p.frame_request.is_empty());
    assert!(p.presentation_feedback.is_empty());
    assert!(p.subsurfaces.is_empty());
    assert!(!p.damage);
    assert!(!p.explicit_sync);
    assert!(p.scale.is_none() && p.transform.is_none());
    assert!(p.acquire_point.is_none() && p.release_point.is_none());
}

#[test]
fn the_last_attach_of_a_cycle_wins() {
    let mut p = PendingState::new();
    p.record_buffer_attach(Some(buffer(1)), 0, 0);
    p.record_buffer_attach(Some(buffer(2)), 0, 0);
    assert_eq!(p.buffer, Some(Some(buffer(2))));
    p.record_buffer_attach(None, 0, 0);
    assert_eq!(p.buffer, Some(None));
}

#[test]
fn offsets_of_a_cycle_add_up() {
    let mut p = PendingState::new();
    p.record_buffer_attach(Some(buffer(1)), 3, 4);
    p.record_offset(1, 1);
    assert_eq!(p.offset, (4, 5));
    p.record_offset(-10, 2);
    assert_eq!(p.offset, (-6, 7));
}

#[test]
fn offsets_wrap_around() {
    let mut p = PendingState::new();
    p.record_offset(i32::MAX, i32::MIN);
    p.record_offset(1, -1);
    assert_eq!(p.offset, (i32::MIN, i32::MAX));
}

#[test]
fn callbacks_and_feedback_are_all_kept() {
    let mut p = PendingState::new();
    p.record_frame_callback(7);
    p.record_frame_callback(8);
    p.record_presentation_feedback(1);
    p.record_presentation_feedback(2);
    p.record_presentation_feedback(3);
    assert_eq!(p.frame_request, vec![7, 8]);
    assert_eq!(p.presentation_feedback, vec![1, 2, 3]);
}

#[test]
fn scalar_fields_are_replaced() {
    let mut p = PendingState::new();
    p.record_scale(2);
    p.record_scale(3);
    p.record_transform(Transform::Rotate90);
    p.record_transform(Transform::Flip);
    p.record_damage();
    p.record_tearing(true);
    p.record_content_type(Some(ContentType::Game));
    p.record_content_type(None);
    p.record_xwayland_serial(99);
    assert_eq!(p.scale, Some(3));
    assert_eq!(p.transform, Some(Transform::Flip));
    assert!(p.damage);
    assert_eq!(p.tearing, Some(true));
    assert_eq!(p.content_type, Some(None));
    assert_eq!(p.xwayland_serial, Some(99));
}

#[test]
fn regions_are_replaced_not_merged() {
    let mut p = PendingState::new();
    p.record_region_set(RegionKind::Input, Some(Region::new(Rect::new(0, 0, 5, 5).unwrap())));
    p.record_region_set(RegionKind::Input, Some(Region::new(Rect::new(10, 10, 15, 15).unwrap())));
    p.record_region_set(RegionKind::Opaque, None);
    let input = p.input_region.unwrap().unwrap();
    assert_eq!(input.rects, vec![Rect::new(10, 10, 15, 15).unwrap()]);
    assert!(matches!(p.opaque_region, Some(None)));
}

#[test]
fn viewport_halves_are_kept_apart() {
    let src = SrcRect { x: Fixed(0), y: Fixed(0), width: Fixed(2560), height: Fixed(5120) };
    let mut p = PendingState::new();
    p.record_viewport(Some(Some(src)), None);
    p.record_viewport(None, Some(Some((10, 20))));
    assert_eq!(p.src_rect, Some(Some(src)));
    assert_eq!(p.dst_size, Some(Some((10, 20))));
    p.record_viewport(Some(None), None);
    assert_eq!(p.src_rect, Some(None));
    assert_eq!(p.dst_size, Some(Some((10, 20))));
}

#[test]
fn sync_points_are_kept_until_replaced() {
    let a = SyncObjPoint { sync_obj: 1, point: 10 };
    let r = SyncObjPoint { sync_obj: 1, point: 11 };
    let mut p = PendingState::new();
    p.record_explicit_sync_points(Some(a), None);
    p.record_explicit_sync_points(None, Some(r));
    assert_eq!(p.acquire_point, Some(a));
    assert_eq!(p.release_point, Some(r));
}

#[test]
fn take_hands_out_everything_and_starts_over() {
    let mut p = PendingState::new();
    p.record_scale(2);
    p.record_frame_callback(1);
    p.explicit_sync = true;
    let taken = p.take();
    assert_eq!(taken.scale, Some(2));
    assert_eq!(taken.frame_request, vec![1]);
    assert!(taken.explicit_sync);
    assert!(p.scale.is_none());
    assert!(p.frame_request.is_empty());
    assert!(!p.explicit_sync);
}

#[test]
fn merge_releases_the_superseded_buffer_once() {
    let mut first = PendingState::new();
    first.record_buffer_attach(Some(buffer(1)), 0, 0);
    let mut second = PendingState::new();
    second.record_buffer_attach(Some(buffer(2)), 0, 0);
    let mut events = Vec::new();
    first.merge(&mut second, &live(&[1, 2]), &mut events);
    assert_eq!(events, vec![Event::SendRelease { buffer: 1 }]);
    assert_eq!(first.buffer, Some(Some(buffer(2))));
    assert!(second.buffer.is_none());
}

#[test]
fn merge_signals_the_release_point_of_the_superseded_buffer() {
    let point = SyncObjPoint { sync_obj: 5, point: 9 };
    let next_point = SyncObjPoint { sync_obj: 5, point: 10 };
    let mut first = PendingState::new();
    first.record_buffer_attach(Some(buffer(1)), 0, 0);
    first.record_explicit_sync_points(None, Some(point));
    let mut second = PendingState::new();
    second.record_buffer_attach(Some(buffer(2)), 0, 0);
    second.record_explicit_sync_points(None, Some(next_point));
    let mut events = Vec::new();
    first.merge(&mut second, &live(&[1, 2]), &mut events);
    assert_eq!(events, vec![Event::SignalPoint { point }]);
    assert_eq!(first.release_point, Some(next_point));
    assert_eq!(first.buffer, Some(Some(buffer(2))));
}

#[test]
fn merge_does_not_release_a_destroyed_buffer() {
    let mut first = PendingState::new();
    first.record_buffer_attach(Some(buffer(1)), 0, 0);
    let mut second = PendingState::new();
    second.record_buffer_attach(None, 0, 0);
    let mut events = Vec::new();
    first.merge(&mut second, &live(&[2]), &mut events);
    assert!(events.is_empty());
    assert_eq!(first.buffer, Some(None));
}

#[test]
fn merge_without_a_new_buffer_keeps_the_old_one() {
    let point = SyncObjPoint { sync_obj: 5, point: 9 };
    let mut first = PendingState::new();
    first.record_buffer_attach(Some(buffer(1)), 0, 0);
    first.record_explicit_sync_points(None, Some(point));
    let mut second = PendingState::new();
    second.record_scale(2);
    let mut events = Vec::new();
    first.merge(&mut second, &live(&[1]), &mut events);
    assert!(events.is_empty());
    assert_eq!(first.buffer, Some(Some(buffer(1))));
    assert_eq!(first.release_point, Some(point));
    assert_eq!(first.scale, Some(2));
}

#[test]
fn merge_lets_the_later_write_win_and_accumulates_the_rest() {
    let mut first = PendingState::new();
    first.record_scale(2);
    first.record_transform(Transform::Rotate90);
    first.record_offset(3, 4);
    first.record_frame_callback(1);
    first.record_presentation_feedback(10);
    first.record_tearing(false);
    first.explicit_sync = true;
    let mut second = PendingState::new();
    second.record_scale(3);
    second.record_offset(1, 1);
    second.record_frame_callback(2);
    second.record_presentation_feedback(11);
    second.record_damage();
    second.record_xwayland_serial(5);
    let mut events = Vec::new();
    first.merge(&mut second, &live(&[]), &mut events);
    assert!(events.is_empty());
    assert_eq!(first.scale, Some(3));
    assert_eq!(first.transform, Some(Transform::Rotate90));
    assert_eq!(first.offset, (4, 5));
    assert_eq!(first.frame_request, vec![1, 2]);
    assert_eq!(first.presentation_feedback, vec![10, 11]);
    assert!(first.damage);
    assert_eq!(first.tearing, Some(false));
    assert_eq!(first.xwayland_serial, Some(5));
    assert!(first.explicit_sync);
    assert!(second.scale.is_none());
    assert_eq!(second.offset, (0, 0));
    assert!(second.frame_request.is_empty());
    assert!(second.presentation_feedback.is_empty());
    assert!(!second.damage);
}

#[test]
fn merge_joins_the_data_of_the_role() {
    let mut first = PendingState::new();
    first.subsurface = Some(PendingSubsurfaceData { node: Some(1), position: None });
    let mut second = PendingState::new();
    second.subsurface = Some(PendingSubsurfaceData { node: None, position: Some((5, 6)) });
    let mut events = Vec::new();
    first.merge(&mut second, &live(&[]), &mut events);
    let data = first.subsurface.unwrap();
    assert_eq!(data.node, Some(1));
    assert_eq!(data.position, Some((5, 6)));
    assert!(second.subsurface.is_none());
}

#[test]
fn merge_folds_children_by_identity() {
    let mut a_child = PendingState::new();
    a_child.record_buffer_attach(Some(buffer(1)), 1, 1);
    let mut first = PendingState::new();
    first.subsurfaces.push(CommittedSubsurface { id: 7, surface: 1, state: a_child });
    let mut b_child = PendingState::new();
    b_child.record_buffer_attach(Some(buffer(2)), 2, 2);
    let mut other_child = PendingState::new();
    other_child.record_scale(2);
    let mut second = PendingState::new();
    second.subsurfaces.push(CommittedSubsurface { id: 8, surface: 2, state: other_child });
    second.subsurfaces.push(CommittedSubsurface { id: 7, surface: 1, state: b_child });
    let mut events = Vec::new();
    first.merge(&mut second, &live(&[1, 2]), &mut events);
    assert_eq!(events, vec![Event::SendRelease { buffer: 1 }]);
    assert_eq!(first.subsurfaces.len(), 2);
    assert_eq!(first.subsurfaces[0].id, 7);
    assert_eq!(first.subsurfaces[0].state.buffer, Some(Some(buffer(2))));
    assert_eq!(first.subsurfaces[0].state.offset, (3, 3));
    assert_eq!(first.subsurfaces[1].id, 8);
    assert_eq!(first.subsurfaces[1].state.scale, Some(2));
    assert!(second.subsurfaces.is_empty());
    assert_eq!(first.find_child(8), Some(1));
    assert_eq!(first.find_child(9), None);
}

#[test]
fn discard_pays_for_every_buffer_that_is_held() {
    let point = SyncObjPoint { sync_obj: 1, point: 2 };
    let mut child = PendingState::new();
    child.record_buffer_attach(Some(buffer(2)), 0, 0);
    child.record_explicit_sync_points(None, Some(point));
    let mut p = PendingState::new();
    p.record_buffer_attach(Some(buffer(1)), 0, 0);
    p.subsurfaces.push(CommittedSubsurface { id: 1, surface: 0, state: child });
    let mut events = Vec::new();
    p.discard(&live(&[1, 2]), &mut events);
    assert_eq!(events, vec![Event::SendRelease { buffer: 1 }, Event::SignalPoint { point }]);
}

#[test]
fn live_buffers_follow_creation_and_destruction() {
    let mut l = LiveBuffers::new();
    assert!(!l.is_live(1));
    l.create(1);
    l.create(2);
    assert!(l.is_live(1) && l.is_live(2));
    l.destroy(1);
    assert!(!l.is_live(1));
    assert!(l.is_live(2));
    l.destroy(3);
    assert!(l.is_live(2));
}
