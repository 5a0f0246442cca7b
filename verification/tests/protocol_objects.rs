use jay::backend::{AxisSource, KeyState, KeyboardEvent, MouseEvent, ScrollAxis};
use jay::backends::metal::input::{EventHandler as LibinputHandler, MetalBackend, Pressed};
use jay::backends::xorg::{
    EventHandler, GenericHandler, Present, XorgBackend, XorgBackendError, XorgImage, XorgOutput,
    XorgSeat,
};
use jay::client::{Client, ClientError, MsgParserError};
use jay::forker::{frame, frame_len, ForkerError, ForkerMessage, ForkerProxy, Level, ServerMessage};
use jay::gfx_api::{
    logical_size, AcquireSync, BufferResvUser, BufferResvUsers, Coord, Corner, Edge,
    FramebufferRect, GfxError, SampleRect, SyncFile,
};
use jay::ifs::wl_output::{
    calculate_logical_size, perform_screencopy, Capture, CaptureBuffer, CaptureStep, Mode,
    OutputEvent,
    PersistentOutputState, Scale, WlOutput, WlOutputError, WlOutputGlobal,
};
use jay::ifs::xdg_positioner::{
    PositionerRequest, Square, XdgPositioned, XdgPositioner, XdgPositionerError, CA,
};
use jay::it::test_config::{ClientMessage, ServerData, TestConfig, TestError};
use jay::rect::Rect;
use jay::transform::Transform;
use jay::utils::copyhashmap::CopyHashMap;

#[test]
fn hash_map_keeps_what_it_is_given() {
    let mut map = CopyHashMap::new();
    assert_eq!(map.get(1), None);
    assert!(!map.contains(1));
    map.set(1, 10);
    map.set(2, 20);
    assert_eq!(map.get(1), Some(10));
    assert_eq!(map.get(2), Some(20));
    map.set(1, 11);
    assert_eq!(map.get(1), Some(11));
    assert_eq!(map.remove(1), Some(11));
    assert_eq!(map.remove(1), None);
    assert_eq!(map.get(1), None);
    assert!(map.contains(2));
}

#[test]
fn squares_of_the_anchor_enumeration() {
    assert_eq!(Square::from_enum(0), Some(Square { bits: 0 }));
    assert_eq!(Square::from_enum(1), Some(Square { bits: 1 }));
    assert_eq!(Square::from_enum(2), Some(Square { bits: 2 }));
    assert_eq!(Square::from_enum(3), Some(Square { bits: 4 }));
    assert_eq!(Square::from_enum(4), Some(Square { bits: 8 }));
    assert_eq!(Square::from_enum(5), Some(Square { bits: 5 }));
    assert_eq!(Square::from_enum(6), Some(Square { bits: 6 }));
    assert_eq!(Square::from_enum(7), Some(Square { bits: 9 }));
    assert_eq!(Square::from_enum(8), Some(Square { bits: 10 }));
    assert_eq!(Square::from_enum(9), None);
    let top_left = Square::from_enum(5).unwrap();
    assert!(top_left.contains(Square::top()));
    assert!(top_left.contains(Square::left()));
    assert!(!top_left.contains(Square::right()));
    assert!(!top_left.contains(Square::bottom()));
    assert!(top_left.contains(Square::empty()));
    assert_eq!(Square::default(), Square::empty());
}

#[test]
fn constraint_adjustments_know_their_bits() {
    assert_eq!(CA::from_bits(0).map(|c| c.bits()), Some(0));
    assert_eq!(CA::from_bits(63).map(|c| c.bits()), Some(63));
    assert_eq!(CA::from_bits(64), None);
    assert!(CA::from_bits(5).unwrap().contains(CA { bits: 4 }));
    assert!(!CA::from_bits(5).unwrap().contains(CA { bits: 2 }));
}

fn positioned(anchor: u32, gravity: u32) -> XdgPositioned {
    let mut p = XdgPositioner::new(3, 1);
    p.set_size(20, 10).unwrap();
    p.set_anchor_rect(100, 200, 40, 60).unwrap();
    p.set_anchor(anchor).unwrap();
    p.set_gravity(gravity).unwrap();
    p.value()
}

#[test]
fn a_positioner_is_complete_with_a_size() {
    let mut p = XdgPositioner::new(3, 1);
    assert!(!p.value().is_complete());
    assert_eq!(p.value(), XdgPositioned::default());
    p.set_size(20, 10).unwrap();
    assert!(p.value().is_complete());
}

#[test]
fn popup_positions() {
    assert_eq!(positioned(0, 0).get_position(), Rect::new_sized(110, 225, 20, 10).unwrap());
    assert_eq!(positioned(5, 8).get_position(), Rect::new_sized(100, 200, 20, 10).unwrap());
    assert_eq!(positioned(8, 5).get_position(), Rect::new_sized(120, 250, 20, 10).unwrap());
    assert_eq!(positioned(3, 3).get_position(), Rect::new_sized(80, 225, 20, 10).unwrap());
    assert_eq!(positioned(1, 1).get_position(), Rect::new_sized(110, 190, 20, 10).unwrap());
}

#[test]
fn the_horizontal_offset_moves_both_axes() {
    let mut p = XdgPositioner::new(3, 1);
    p.set_size(20, 10).unwrap();
    p.set_anchor(5).unwrap();
    p.set_gravity(8).unwrap();
    p.set_offset(7, 1000);
    let v = p.value();
    assert_eq!((v.off_x, v.off_y), (7, 1000));
    assert_eq!(v.get_position(), Rect::new_sized(7, 7, 20, 10).unwrap());
}

#[test]
fn positioner_requests_check_their_arguments() {
    let mut p = XdgPositioner::new(3, 1);
    assert_eq!(p.set_size(0, 1), Err(XdgPositionerError::NonPositiveSize));
    assert_eq!(p.set_size(1, -1), Err(XdgPositionerError::NonPositiveSize));
    assert_eq!(p.set_anchor_rect(0, 0, -1, 0), Err(XdgPositionerError::NegativeAnchorRect));
    assert_eq!(p.set_anchor_rect(0, 0, 0, 0), Ok(()));
    assert_eq!(p.set_anchor(9), Err(XdgPositionerError::UnknownAnchor(9)));
    assert_eq!(p.set_gravity(100), Err(XdgPositionerError::UnknownGravity(100)));
    assert_eq!(p.set_constraint_adjustment(64), Err(XdgPositionerError::UnknownCa(64)));
    assert_eq!(p.set_constraint_adjustment(63), Ok(()));
    assert_eq!(p.set_parent_size(-1, 0), Err(XdgPositionerError::NegativeParentSize));
    assert_eq!(p.set_parent_size(0, 0), Ok(()));
    p.set_reactive();
    p.set_parent_configure(77);
    let v = p.value();
    assert_eq!(v.ca, CA { bits: 63 });
    assert!(v.reactive);
    assert_eq!(v.parent_serial, 77);
    assert_eq!(XdgPositionerError::NonPositiveSize.protocol_error(), Some(0));
    assert_eq!(XdgPositionerError::UnknownAnchor(9).protocol_error(), None);
}

#[test]
fn positioner_requests_depend_on_the_version() {
    let mut old = XdgPositioner::new(2, 1);
    assert_eq!(old.num_requests(), 7);
    assert_eq!(old.handle_request(PositionerRequest::SetReactive), None);
    assert_eq!(old.handle_request(PositionerRequest::SetOffset { x: 1, y: 2 }), Some(Ok(())));
    assert_eq!(old.value().off_x, 1);
    let mut new = XdgPositioner::new(3, 1);
    assert_eq!(new.num_requests(), 10);
    assert_eq!(new.handle_request(PositionerRequest::SetReactive), Some(Ok(())));
    assert_eq!(
        new.handle_request(PositionerRequest::SetSize { width: 0, height: 0 }),
        Some(Err(XdgPositionerError::NonPositiveSize))
    );
    assert_eq!(new.handle_request_(PositionerRequest::Destroy), Ok(()));
    assert!(new.destroyed);
    assert_eq!(PositionerRequest::SetParentConfigure { serial: 0 }.opcode(), 9);
}

#[test]
fn frames_carry_their_length() {
    let payload = vec![1u8, 2, 3];
    let framed = frame(&payload);
    assert_eq!(framed, vec![3, 0, 0, 0, 0, 0, 0, 0, 1, 2, 3]);
    assert_eq!(frame_len(&framed), Some(3));
    assert_eq!(frame_len(&vec![0u8; 7]), None);
    assert_eq!(frame_len(&vec![0, 1, 0, 0, 0, 0, 0, 0]), Some(256));
    assert_eq!(frame_len(&vec![255u8; 8]), Some(u64::MAX));
    let big = vec![0u8; 300];
    let framed = frame(&big);
    assert_eq!(&framed[..8], &[44, 1, 0, 0, 0, 0, 0, 0]);
    assert_eq!(frame_len(&framed), Some(300));
    assert_eq!(frame(&vec![]), vec![0u8; 8]);
}

#[test]
fn log_levels_of_the_helper() {
    assert_eq!(Level::from_usize(1), Level::Error);
    assert_eq!(Level::from_usize(2), Level::Warn);
    assert_eq!(Level::from_usize(3), Level::Info);
    assert_eq!(Level::from_usize(4), Level::Debug);
    assert_eq!(Level::from_usize(5), Level::Trace);
    assert_eq!(Level::from_usize(0), Level::Error);
    assert_eq!(Level::from_usize(6), Level::Error);
    assert_eq!(Level::Trace.to_usize(), 5);
    assert_eq!(ForkerProxy::handle_log(3), Level::Info);
    let proxy = ForkerProxy::new(1);
    let (level, msg) = proxy.handle_msg(ForkerMessage::Log { level: 2, msg: "careful".to_string() });
    assert_eq!(level, Level::Warn);
    assert_eq!(msg, "careful");
    assert_eq!(ForkerError::Socketpair(12).errno(), 12);
    assert_eq!(ForkerError::Fork(11).errno(), 11);
}

#[test]
fn messages_to_the_helper_are_queued_in_order() {
    let mut proxy = ForkerProxy::new(42);
    proxy.setenv(b"A".to_vec(), b"1".to_vec());
    proxy.spawn("prog".to_string(), vec!["x".to_string()], vec![]);
    assert_eq!(proxy.outgoing.len(), 2);
    assert!(matches!(proxy.pop(), Some(ServerMessage::SetEnv { .. })));
    match proxy.pop() {
        Some(ServerMessage::Spawn { prog, args, env }) => {
            assert_eq!(prog, "prog");
            assert_eq!(args, vec!["x".to_string()]);
            assert!(env.is_empty());
        }
        _ => panic!("expected a spawn"),
    }
    assert!(proxy.pop().is_none());
}

#[test]
fn outputs_tell_bindings_what_their_version_has() {
    let persistent =
        PersistentOutputState { transform: Transform::Rotate90, scale: Scale(180), pos: (10, 20) };
    let mode = Mode { width: 1920, height: 1080, refresh_rate_millihz: 60000 };
    let mut output = WlOutputGlobal::new(1, vec![mode], mode, 300, 200, persistent);
    assert_eq!(output.position(), Rect::new_sized(10, 20, 720, 1280).unwrap());
    assert_eq!(output.pixel_size(), (1080, 1920));
    assert_eq!(output.legacy_scale, 2);
    let v1 = WlOutput { client: 1, id: 5, version: 1 };
    let v4 = WlOutput { client: 2, id: 6, version: 4 };
    assert_eq!(
        output.bind_(v1),
        vec![OutputEvent::Geometry { binding: v1 }, OutputEvent::Mode { binding: v1 }]
    );
    assert_eq!(
        output.bind_(v4),
        vec![
            OutputEvent::Geometry { binding: v4 },
            OutputEvent::Mode { binding: v4 },
            OutputEvent::Scale { binding: v4 },
            OutputEvent::Name { binding: v4 },
            OutputEvent::Done { binding: v4 },
        ]
    );
    assert_eq!(output.for_each_binding(2), vec![v4]);
    assert_eq!(output.send_enter(1), vec![v1]);
    assert_eq!(output.send_leave(3), vec![]);
    assert_eq!(
        output.perform_screencopies(&vec![
            Capture { buffer: CaptureBuffer::Missing, with_damage: true },
            Capture { buffer: CaptureBuffer::Shm, with_damage: false },
        ]),
        vec![vec![CaptureStep::Failed], vec![CaptureStep::CopyToShm, CaptureStep::SendReady]]
    );
    assert_eq!(output.send_mode().len(), 8);
    assert!(!v1.can_release());
    assert!(v4.can_release());
    assert_eq!(v4.send_done(), OutputEvent::Done { binding: v4 });
    output.remove_binding(1, 5);
    assert_eq!(output.bindings, vec![v4]);
    output.clear();
    assert!(output.bindings.is_empty());
}

#[test]
fn logical_sizes() {
    assert_eq!(calculate_logical_size((1920, 1080), Transform::Normal, Scale(120)), (1920, 1080));
    assert_eq!(calculate_logical_size((1920, 1080), Transform::Normal, Scale(240)), (960, 540));
    assert_eq!(calculate_logical_size((1920, 1080), Transform::Rotate270, Scale(150)), (864, 1536));
    assert_eq!(calculate_logical_size((3, 3), Transform::Normal, Scale(240)), (2, 2));
    assert_eq!(Scale::from_int(2), Scale(240));
    assert_eq!(Scale(121).round_up(), 2);
    assert_eq!(Scale(120).round_up(), 1);
    assert_eq!(logical_size((3, 4), Transform::Rotate90), (4, 3));
}

#[test]
fn captures_need_a_usable_buffer() {
    assert_eq!(perform_screencopy(CaptureBuffer::Missing, true), vec![CaptureStep::Failed]);
    assert_eq!(perform_screencopy(CaptureBuffer::Destroyed, false), vec![CaptureStep::Failed]);
    assert_eq!(
        perform_screencopy(CaptureBuffer::Device { has_framebuffer: false }, false),
        vec![CaptureStep::Failed]
    );
    assert_eq!(
        perform_screencopy(CaptureBuffer::Shm, true),
        vec![CaptureStep::CopyToShm, CaptureStep::SendDamage, CaptureStep::SendReady]
    );
    assert_eq!(
        perform_screencopy(CaptureBuffer::Device { has_framebuffer: true }, false),
        vec![CaptureStep::CopyToFramebuffer, CaptureStep::SendReady]
    );
}

#[test]
fn sync_and_reader_identities() {
    assert_eq!(AcquireSync::from_sync_file(None), AcquireSync::Implicit);
    assert_eq!(
        AcquireSync::from_sync_file(Some(SyncFile(3))),
        AcquireSync::SyncFile { sync_file: SyncFile(3) }
    );
    let mut users = BufferResvUsers::new();
    assert_eq!(users.next(), Some(BufferResvUser(1)));
    assert_eq!(users.next(), Some(BufferResvUser(2)));
    users.next_id = u64::MAX;
    assert_eq!(users.next(), None);
    assert_eq!(GfxError("lost".to_string()).message(), "lost");
}

#[test]
fn corners_follow_the_transform() {
    let x1 = Coord { edge: Edge::X1, negated: false };
    let x2 = Coord { edge: Edge::X2, negated: false };
    let y1 = Coord { edge: Edge::Y1, negated: false };
    let y2 = Coord { edge: Edge::Y2, negated: false };
    let normal = SampleRect::identity().to_points();
    assert_eq!(normal.top_right, Corner { first: x2, second: y1 });
    assert_eq!(normal.top_left, Corner { first: x1, second: y1 });
    assert_eq!(normal.bottom_right, Corner { first: x2, second: y2 });
    assert_eq!(normal.bottom_left, Corner { first: x1, second: y2 });
    let turned = SampleRect::covering(Transform::Rotate90).to_points();
    assert_eq!(turned.top_right, Corner { first: y1, second: x1 });
    assert_eq!(turned.bottom_left, Corner { first: y2, second: x2 });
    let fb = FramebufferRect::to_points(Transform::Rotate180);
    assert_eq!(
        fb.top_right,
        Corner {
            first: Coord { edge: Edge::X2, negated: true },
            second: Coord { edge: Edge::Y1, negated: true }
        }
    );
    assert_eq!(FramebufferRect::to_points(Transform::Normal), normal);
}

#[test]
fn x_events_are_told_apart() {
    assert_eq!(XorgBackend::handle_event(22), EventHandler::Configure);
    assert_eq!(XorgBackend::handle_event(22 | 0x80), EventHandler::Configure);
    assert_eq!(XorgBackend::handle_event(17), EventHandler::Destroy);
    assert_eq!(XorgBackend::handle_event(35), EventHandler::Generic);
    assert_eq!(XorgBackend::handle_event(2), EventHandler::Ignored);
    assert_eq!(XorgBackend::handle_generic(131, 6, 131, 140), GenericHandler::InputMotion);
    assert_eq!(XorgBackend::handle_generic(140, 1, 131, 140), GenericHandler::PresentComplete);
    assert_eq!(XorgBackend::handle_generic(140, 2, 131, 140), GenericHandler::PresentIdle);
    assert_eq!(XorgBackend::handle_generic(1, 2, 131, 140), GenericHandler::Ignored);
    assert_eq!(XorgBackend::handle_input_event(4), GenericHandler::InputButton(KeyState::Pressed));
    assert_eq!(XorgBackend::handle_input_event(5), GenericHandler::InputButton(KeyState::Released));
    assert_eq!(XorgBackend::handle_input_event(2), GenericHandler::InputKey(KeyState::Pressed));
    assert_eq!(XorgBackend::handle_input_event(3), GenericHandler::InputKey(KeyState::Released));
    assert_eq!(XorgBackend::handle_input_event(7), GenericHandler::InputEnter);
    assert_eq!(XorgBackend::handle_input_event(11), GenericHandler::InputHierarchy);
    assert_eq!(XorgBackend::handle_input_event(12), GenericHandler::Ignored);
    assert_eq!(XorgBackend::handle_present_event(0), GenericHandler::Ignored);
}

#[test]
fn x_buttons() {
    let press = KeyState::Pressed;
    assert_eq!(
        XorgBackend::handle_input_button_press(4, press),
        Some(MouseEvent::Scroll(-15, ScrollAxis::Vertical))
    );
    assert_eq!(
        XorgBackend::handle_input_button_press(5, press),
        Some(MouseEvent::Scroll(15, ScrollAxis::Vertical))
    );
    assert_eq!(
        XorgBackend::handle_input_button_press(6, press),
        Some(MouseEvent::Scroll(-15, ScrollAxis::Horizontal))
    );
    assert_eq!(
        XorgBackend::handle_input_button_press(7, press),
        Some(MouseEvent::Scroll(15, ScrollAxis::Horizontal))
    );
    assert_eq!(XorgBackend::handle_input_button_press(4, KeyState::Released), None);
    assert_eq!(XorgBackend::handle_input_button_press(0, press), None);
    assert_eq!(
        XorgBackend::handle_input_button_press(1, press),
        Some(MouseEvent::Button(0x110, press))
    );
    assert_eq!(
        XorgBackend::handle_input_button_press(2, press),
        Some(MouseEvent::Button(0x112, press))
    );
    assert_eq!(
        XorgBackend::handle_input_button_press(3, KeyState::Released),
        Some(MouseEvent::Button(0x111, KeyState::Released))
    );
    assert_eq!(
        XorgBackend::handle_input_button_press(9, press),
        Some(MouseEvent::Button(0x114, press))
    );
    assert_eq!(
        XorgBackend::handle_input_key_press(38, press),
        KeyboardEvent::Key(30, press)
    );
}

#[test]
fn images_are_presented_in_turn() {
    let mut output = XorgOutput::new(1, 10, 11);
    let first = output.present();
    assert_eq!(first, Present { image: 0, pixmap: 10, serial: 0, target_msc: 0 });
    output.presented(first);
    assert!(!output.first.idle);
    let second = output.present();
    assert_eq!(second, Present { image: 1, pixmap: 11, serial: 1, target_msc: 0 });
    output.presented(second);
    assert!(!output.handle_present_complete(100));
    assert_eq!(output.next_msc, 101);
    assert!(output.first.render_on_idle);
    assert_eq!(output.handle_present_idle(0), 1);
    assert_eq!(
        output.first,
        XorgImage { pixmap: 10, idle: true, render_on_idle: false, last_serial: 0 }
    );
    assert_eq!(output.handle_present_idle(1), 0);
    assert!(output.second.idle);
    assert!(output.handle_present_complete(101));
    assert!(output.handle_configure(800, 600));
    assert!(!output.handle_configure(800, 600));
    assert!(output.handle_configure(800, 601));
    output.handle_destroy();
    assert!(output.removed);
    assert_eq!(output.get_image(3).pixmap, 11);
}

#[test]
fn seats_queue_their_events() {
    let mut seat = XorgSeat::new(3, 2);
    seat.kb_event(KeyboardEvent::Key(1, KeyState::Pressed));
    seat.kb_event(KeyboardEvent::Key(1, KeyState::Released));
    seat.mouse_event(MouseEvent::Button(0x110, KeyState::Pressed));
    assert_eq!(seat.next_kb_event(), Some(KeyboardEvent::Key(1, KeyState::Pressed)));
    assert_eq!(seat.next_kb_event(), Some(KeyboardEvent::Key(1, KeyState::Released)));
    assert_eq!(seat.next_kb_event(), None);
    assert_eq!(seat.next_mouse_event(), Some(MouseEvent::Button(0x110, KeyState::Pressed)));
    assert_eq!(seat.next_mouse_event(), None);
    seat.update_button_map(&vec![3, 2, 3, 1]);
    assert_eq!(seat.button_map.get(3), Some(1));
    assert_eq!(seat.button_map.get(2), Some(2));
    assert_eq!(seat.button_map.get(1), Some(4));
    assert_eq!(seat.button_map.get(4), None);
    seat.update_button_map(&vec![1]);
    assert_eq!(seat.button_map.get(3), None);
    assert_eq!(seat.button_map.get(1), Some(1));
}

#[test]
fn libinput_events_are_told_apart() {
    assert_eq!(MetalBackend::handle_event(1), LibinputHandler::DeviceAdded);
    assert_eq!(MetalBackend::handle_event(2), LibinputHandler::DeviceRemoved);
    assert_eq!(MetalBackend::handle_event(300), LibinputHandler::KeyboardKey);
    assert_eq!(MetalBackend::handle_event(400), LibinputHandler::PointerMotion);
    assert_eq!(MetalBackend::handle_event(402), LibinputHandler::PointerButton);
    assert_eq!(MetalBackend::handle_event(404), LibinputHandler::PointerAxis(AxisSource::Wheel));
    assert_eq!(MetalBackend::handle_event(405), LibinputHandler::PointerAxis(AxisSource::Finger));
    assert_eq!(
        MetalBackend::handle_event(406),
        LibinputHandler::PointerAxis(AxisSource::Continuous)
    );
    assert_eq!(MetalBackend::handle_event(403), LibinputHandler::Ignored);
}

#[test]
fn repeated_presses_and_releases_are_dropped() {
    let mut backend = MetalBackend::new();
    assert_eq!(backend.handle_keyboard_key(30, 1), Some((30, KeyState::Pressed)));
    assert_eq!(backend.handle_keyboard_key(30, 1), None);
    assert_eq!(backend.handle_keyboard_key(31, 0), None);
    assert_eq!(backend.handle_keyboard_key(30, 0), Some((30, KeyState::Released)));
    assert_eq!(backend.handle_keyboard_key(30, 0), None);
    assert_eq!(backend.handle_pointer_button(0x110, 1), Some((0x110, KeyState::Pressed)));
    assert_eq!(backend.handle_keyboard_key(0x110, 0), None);
    assert_eq!(backend.handle_pointer_button(0x110, 0), Some((0x110, KeyState::Released)));
    let mut pressed = Pressed::new();
    assert_eq!(pressed.transition(1, false), None);
    assert_eq!(pressed.transition(1, true), Some(KeyState::Pressed));
}

#[test]
fn the_test_configuration_needs_the_compositor() {
    let mut config = TestConfig::new();
    assert_eq!(config.quit(), Err(TestError::SrvNotSet));
    config.init(ServerData { srv_data: 5 });
    assert_eq!(config.quit(), Ok((ServerData { srv_data: 5 }, ClientMessage::Quit)));
    assert_eq!(config.take_srv(), Some(ServerData { srv_data: 5 }));
    assert_eq!(config.take_srv(), None);
    assert_eq!(config.send(ClientMessage::Quit), Err(TestError::SrvNotSet));
}

#[test]
fn a_binding_is_released_from_the_third_version_on() {
    let persistent =
        PersistentOutputState { transform: Transform::Normal, scale: Scale(120), pos: (0, 0) };
    let mode = Mode { width: 10, height: 10, refresh_rate_millihz: 60000 };
    let mut output = WlOutputGlobal::new(1, vec![mode], mode, 1, 1, persistent);
    let old = WlOutput { client: 1, id: 5, version: 2 };
    let new = WlOutput { client: 1, id: 6, version: 3 };
    output.bind_(old);
    output.bind_(new);
    let invalid = Err(WlOutputError::ClientError(ClientError::InvalidMethod));
    assert_eq!(output.handle_request(old, 0, 0), invalid);
    assert_eq!(output.handle_request(new, 1, 0), invalid);
    assert_eq!(
        output.handle_request(new, 0, 4),
        Err(WlOutputError::MsgParserError(MsgParserError::TrailingData))
    );
    assert_eq!(output.bindings.len(), 2);
    assert_eq!(output.handle_request(new, 0, 0), Ok(()));
    assert_eq!(output.bindings, vec![old]);
}

#[test]
fn surfaces_are_found_by_their_identity() {
    let mut client = Client::new(true);
    let a = client.create_surface(10, 6);
    let b = client.create_surface(11, 6);
    assert_eq!(client.lookup(10), Ok(a));
    assert_eq!(client.lookup(11), Ok(b));
    assert_eq!(client.lookup(12), Err(ClientError::UnknownId(12)));
    jay::ifs::wl_surface::WlSurface::destroy(&mut client, a).unwrap();
    assert_eq!(client.lookup(10), Err(ClientError::UnknownId(10)));
    let again = client.create_surface(10, 6);
    assert_eq!(client.lookup(10), Ok(again));
}

#[test]
fn a_broken_connection_ends_the_backend() {
    assert_eq!(XorgBackend::dispatch(0x1), Ok(()));
    assert_eq!(XorgBackend::dispatch(0x8), Err(XorgBackendError::ErrorEvent));
    assert_eq!(XorgBackend::dispatch(0x10 | 0x1), Err(XorgBackendError::ErrorEvent));
    assert_eq!(XorgBackend::dispatch(0), Ok(()));
}
