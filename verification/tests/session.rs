use std::sync::Arc;

use hop::common::{ButtonId, ClipboardFormat, ClipboardId, KeyId, ModifierMask};
use hop::coordinator::{Coordinator, CoordinatorEvent};
use hop::driver::{platform_calls, CoordinatorCommand, CoordinatorDriver, Delivery, PlatformCall};
use hop::layout::{ScreenEntry, ScreenLayout};
use hop::platform::{InjectedEvent, InputEvent, ScreenInfo};
use hop::protocol::{Capability, DisconnectReason, Message, ProtocolError, PROTOCOL_VERSION};
use hop::proxy::{proxy_step, server_greeting, session_step, PeerAction, PeerEvent};

fn layout() -> ScreenLayout {
    ScreenLayout {
        primary: "desk".into(),
        screens: vec![
            ScreenEntry { name: "desk".into(), origin_x: 0, origin_y: 0, width: 1920, height: 1080 },
            ScreenEntry { name: "monitor".into(), origin_x: 1920, origin_y: 0, width: 2560, height: 1440 },
        ],
    }
}

fn driver() -> CoordinatorDriver {
    CoordinatorDriver::new(Coordinator::new(Arc::new(layout()), "desk".into()))
}

fn register(d: &mut CoordinatorDriver, name: &str) -> Vec<Delivery> {
    d.on_command(CoordinatorCommand::RegisterClient { name: name.into(), capabilities: vec![] })
}

fn mouse(d: &mut CoordinatorDriver, x: i32, y: i32) -> Vec<Delivery> {
    d.on_command(CoordinatorCommand::Event(CoordinatorEvent::LocalInput(InputEvent::MouseMove { x, y })))
}

#[test]
fn keepalive_is_not_forwarded_to_coordinator() {
    let step = proxy_step(PeerEvent::Inbound(Message::KeepAlive));
    assert!(matches!(step.action, PeerAction::Continue));
    assert!(step.peer_seen);
}

#[test]
fn inbound_application_message_is_forwarded() {
    let msg = Message::ClipboardGrab { id: ClipboardId::Clipboard, seq: 1 };
    let step = proxy_step(PeerEvent::Inbound(msg));
    assert!(matches!(step.action, PeerAction::Forward(Message::ClipboardGrab { seq: 1, .. })));
}

#[test]
fn proxy_exit_paths() {
    let cases = [
        (PeerEvent::ShutdownRequested, Some(DisconnectReason::UserInitiated)),
        (PeerEvent::OutboundClosed, Some(DisconnectReason::InternalError)),
        (PeerEvent::KeepAliveTick { timed_out: true }, Some(DisconnectReason::KeepAliveTimeout)),
        (PeerEvent::PeerClosed, None),
        (PeerEvent::Inbound(Message::Disconnect { reason: DisconnectReason::UserInitiated }), None),
    ];
    for (event, farewell) in cases {
        match proxy_step(event).action {
            PeerAction::Close(r) => assert_eq!(r, farewell),
            other => panic!("expected Close, got {other:?}"),
        }
    }
    match proxy_step(PeerEvent::InboundFailed(ProtocolError::FrameTooLarge { size: 99 })).action {
        PeerAction::Fail(ProtocolError::FrameTooLarge { size }) => assert_eq!(size, 99),
        other => panic!("expected Fail, got {other:?}"),
    }
}

#[test]
fn outbound_message_is_written_to_peer() {
    let step = proxy_step(PeerEvent::Outbound(Message::KeyDown { key: KeyId::new(0x61), mods: ModifierMask::empty() }));
    assert!(matches!(step.action, PeerAction::Send(Message::KeyDown { .. })));
    assert!(!step.peer_seen);
    let tick = proxy_step(PeerEvent::KeepAliveTick { timed_out: false });
    assert!(matches!(tick.action, PeerAction::Send(Message::KeepAlive)));
}

#[test]
fn bare_session_only_observes_peer_traffic() {
    assert!(matches!(
        session_step(PeerEvent::Inbound(Message::ScreenLeave)).action,
        PeerAction::Continue
    ));
    assert!(matches!(
        session_step(PeerEvent::Inbound(Message::Disconnect { reason: DisconnectReason::Unknown })).action,
        PeerAction::Close(None)
    ));
    assert!(matches!(
        session_step(PeerEvent::ShutdownRequested).action,
        PeerAction::Close(Some(DisconnectReason::UserInitiated))
    ));
}

#[test]
fn server_greets_with_hello_and_screen_geometry() {
    let (hello, info) = server_greeting("desk", &vec![Capability::FileClipboard], ScreenInfo::stub(1920, 1080));
    assert_eq!(hello.protocol_version, PROTOCOL_VERSION);
    assert_eq!(hello.display_name, "desk");
    assert_eq!(hello.capabilities, vec![Capability::FileClipboard]);
    assert_eq!((info.width, info.height, info.scale_factor_pct), (1920, 1080, 100));
}

#[test]
fn registered_client_receives_screen_enter_on_cross() {
    let mut d = driver();
    assert!(register(&mut d, "monitor").is_empty());
    assert!(d.has_queue("monitor"));
    mouse(&mut d, 960, 540);
    let out = mouse(&mut d, 2060, 540);
    match &out[0] {
        Delivery::ToClient { to, msg: Message::ScreenEnter { x: 140, y: 540, seq: 1, .. } } => assert_eq!(to, "monitor"),
        other => panic!("expected ScreenEnter delivery, got {other:?}"),
    }
    assert_eq!(d.coordinator().active(), "monitor");
}

#[test]
fn backpressure_drops_the_slow_client() {
    let mut d = driver();
    register(&mut d, "monitor");
    d.delivery_failed("monitor");
    assert!(!d.has_queue("monitor"));
    mouse(&mut d, 960, 540);
    let out = mouse(&mut d, 2060, 540);
    assert!(out.iter().all(|o| !matches!(o, Delivery::ToClient { .. })), "{out:?}");
    assert_eq!(d.coordinator().active(), "monitor", "the coordinator still routes; the queue is gone");
}

#[test]
fn inject_local_reaches_platform_dispatcher() {
    let mut d = driver();
    register(&mut d, "monitor");
    let out = d.on_command(CoordinatorCommand::Event(CoordinatorEvent::PeerMessage {
        from: "monitor".into(),
        msg: Message::ClipboardData { id: ClipboardId::Clipboard, format: ClipboardFormat::Text, data: b"hello".to_vec() },
    }));
    match &out[..] {
        [Delivery::ToPlatform(Message::ClipboardData { data, .. })] => assert_eq!(data, b"hello"),
        other => panic!("expected one platform delivery, got {other:?}"),
    }
}

#[test]
fn departing_client_loses_its_queue_first() {
    let mut d = driver();
    register(&mut d, "monitor");
    mouse(&mut d, 960, 540);
    mouse(&mut d, 2060, 540);
    let out = d.on_command(CoordinatorCommand::Event(CoordinatorEvent::ClientDisconnected { name: "monitor".into() }));
    assert!(!d.has_queue("monitor"));
    match &out[..] {
        [Delivery::Log(w)] => assert_eq!(w, "active client 'monitor' disconnected; returning control to 'desk'"),
        other => panic!("expected one log line, got {other:?}"),
    }
    assert_eq!(d.coordinator().active(), "desk");
}

#[test]
fn platform_calls_for_injected_messages() {
    let key = KeyId::new(0x61);
    let mods = ModifierMask::shift();
    let calls = platform_calls(Message::KeyRepeat { key, mods, count: 3 });
    assert_eq!(calls.len(), 3);
    assert!(calls.iter().all(|c| matches!(c, PlatformCall::Inject(InjectedEvent::Key { down: true, .. }))));
    assert!(matches!(
        platform_calls(Message::KeyUp { key, mods })[..],
        [PlatformCall::Inject(InjectedEvent::Key { down: false, .. })]
    ));
    assert!(matches!(
        platform_calls(Message::MouseButton { button: ButtonId::left(), down: true })[..],
        [PlatformCall::Inject(InjectedEvent::MouseButton { button: ButtonId(1), down: true })]
    ));
    assert!(matches!(
        platform_calls(Message::ClipboardData { id: ClipboardId::Primary, format: ClipboardFormat::Html, data: vec![1] })[..],
        [PlatformCall::SetClipboard { id: ClipboardId::Primary, format: ClipboardFormat::Html, .. }]
    ));
    assert!(platform_calls(Message::ScreenLeave).is_empty());
    assert!(platform_calls(Message::KeyRepeat { key, mods, count: 0 }).is_empty());
}
