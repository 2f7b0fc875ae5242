use std::sync::Arc;

use hop::common::{ButtonId, ClipboardFormat, ClipboardId, KeyId, ModifierMask};
use hop::coordinator::{to_local, Coordinator, CoordinatorEvent, CoordinatorOutput};
use hop::layout::{ScreenEntry, ScreenLayout};
use hop::platform::InputEvent;
use hop::protocol::Message;

fn three_screen_layout() -> ScreenLayout {
    ScreenLayout {
        primary: "desk".into(),
        screens: vec![
            ScreenEntry { name: "laptop".into(), origin_x: -1440, origin_y: 0, width: 1440, height: 900 },
            ScreenEntry { name: "desk".into(), origin_x: 0, origin_y: 0, width: 1920, height: 1080 },
            ScreenEntry { name: "monitor".into(), origin_x: 1920, origin_y: 0, width: 2560, height: 1440 },
        ],
    }
}

fn make_coord(layout: ScreenLayout) -> Coordinator {
    Coordinator::new(Arc::new(layout), "desk".into())
}

fn connect(coord: &mut Coordinator, name: &str, buf: &mut Vec<CoordinatorOutput>) {
    coord.on_event(CoordinatorEvent::ClientConnected { name: name.into(), capabilities: vec![] }, buf);
}

fn local(coord: &mut Coordinator, ev: InputEvent, buf: &mut Vec<CoordinatorOutput>) {
    coord.on_event(CoordinatorEvent::LocalInput(ev), buf);
}

#[test]
fn starts_on_primary() {
    let coord = make_coord(three_screen_layout());
    assert_eq!(coord.active(), "desk");
    assert_eq!(coord.cursor(), (960, 540));
}

#[test]
fn connected_client_in_layout_joins_clients_map() {
    let mut coord = make_coord(three_screen_layout());
    let mut buf = vec![];
    connect(&mut coord, "laptop", &mut buf);
    assert!(buf.is_empty(), "no warnings for an in-layout client");
    assert!(coord.has_client("laptop"));
}

#[test]
fn orphan_client_is_recorded_separately_with_warning() {
    let mut coord = make_coord(three_screen_layout());
    let mut buf = vec![];
    connect(&mut coord, "stranger", &mut buf);
    assert!(coord.has_orphan("stranger"));
    assert!(!coord.has_client("stranger"));
    assert!(matches!(buf[0], CoordinatorOutput::Warn(_)));
}

#[test]
fn mouse_move_within_primary_produces_no_output() {
    let mut coord = make_coord(three_screen_layout());
    let mut buf = vec![];
    local(&mut coord, InputEvent::MouseMove { x: 500, y: 500 }, &mut buf);
    buf.clear();
    local(&mut coord, InputEvent::MouseMove { x: 600, y: 500 }, &mut buf);
    assert!(buf.is_empty(), "primary-local movement is a no-op: {buf:?}");
    assert_eq!(coord.active(), "desk");
}

#[test]
fn crossing_right_edge_enters_monitor() {
    let mut coord = make_coord(three_screen_layout());
    let mut buf = vec![];
    connect(&mut coord, "monitor", &mut buf);
    buf.clear();

    local(&mut coord, InputEvent::MouseMove { x: 960, y: 540 }, &mut buf);
    buf.clear();
    local(&mut coord, InputEvent::MouseMove { x: 2060, y: 540 }, &mut buf);

    assert_eq!(coord.active(), "monitor");
    assert_eq!(coord.seq(), 1);
    match &buf[0] {
        CoordinatorOutput::Send { to, msg: Message::ScreenEnter { x, y, seq, mask } } => {
            assert_eq!(to, "monitor");
            assert_eq!(*x, 140, "2060 - 1920");
            assert_eq!(*y, 540);
            assert_eq!(*seq, 1);
            assert_eq!(*mask, ModifierMask::empty());
        },
        other => panic!("expected ScreenEnter, got {other:?}"),
    }
}

#[test]
fn key_press_while_on_remote_is_forwarded() {
    let mut coord = make_coord(three_screen_layout());
    let mut buf = vec![];
    connect(&mut coord, "monitor", &mut buf);
    buf.clear();

    local(&mut coord, InputEvent::MouseMove { x: 960, y: 540 }, &mut buf);
    local(&mut coord, InputEvent::MouseMove { x: 2060, y: 540 }, &mut buf);
    buf.clear();

    local(&mut coord, InputEvent::KeyDown { key: KeyId::new(0x61), mods: ModifierMask::empty() }, &mut buf);
    assert_eq!(buf.len(), 1);
    assert!(matches!(
        &buf[0],
        CoordinatorOutput::Send { to, msg: Message::KeyDown { .. } } if to == "monitor"
    ));
}

#[test]
fn held_button_blocks_crossing() {
    let mut coord = make_coord(three_screen_layout());
    let mut buf = vec![];
    connect(&mut coord, "monitor", &mut buf);
    buf.clear();

    local(&mut coord, InputEvent::MouseMove { x: 960, y: 540 }, &mut buf);
    local(&mut coord, InputEvent::MouseButton { button: ButtonId::left(), down: true }, &mut buf);
    buf.clear();

    local(&mut coord, InputEvent::MouseMove { x: 3000, y: 540 }, &mut buf);
    assert_eq!(coord.active(), "desk");
    assert_eq!(coord.cursor(), (1919, 540));
}

#[test]
fn disconnect_of_active_falls_back_to_primary() {
    let mut coord = make_coord(three_screen_layout());
    let mut buf = vec![];
    connect(&mut coord, "monitor", &mut buf);
    buf.clear();
    local(&mut coord, InputEvent::MouseMove { x: 960, y: 540 }, &mut buf);
    local(&mut coord, InputEvent::MouseMove { x: 2060, y: 540 }, &mut buf);
    buf.clear();
    assert_eq!(coord.active(), "monitor");

    coord.on_event(CoordinatorEvent::ClientDisconnected { name: "monitor".into() }, &mut buf);
    assert_eq!(coord.active(), "desk");
    assert!(buf.iter().any(|o| matches!(o, CoordinatorOutput::Warn(_))));
}

#[test]
fn clipboard_grab_broadcasts_to_other_clients() {
    let mut coord = make_coord(three_screen_layout());
    let mut buf = vec![];
    connect(&mut coord, "laptop", &mut buf);
    connect(&mut coord, "monitor", &mut buf);
    buf.clear();

    coord.on_event(
        CoordinatorEvent::PeerMessage {
            from: "laptop".into(),
            msg: Message::ClipboardGrab { id: ClipboardId::Clipboard, seq: 1 },
        },
        &mut buf,
    );

    let sends: Vec<_> = buf
        .iter()
        .filter_map(|o| match o {
            CoordinatorOutput::Send { to, msg: Message::ClipboardGrab { .. } } => Some(to.as_str()),
            _ => None,
        })
        .collect();
    assert_eq!(sends, vec!["monitor"], "broadcast to others only");
}

#[test]
fn clipboard_grab_stale_seq_is_dropped() {
    let mut coord = make_coord(three_screen_layout());
    let mut buf = vec![];
    connect(&mut coord, "laptop", &mut buf);
    connect(&mut coord, "monitor", &mut buf);

    coord.on_event(
        CoordinatorEvent::PeerMessage {
            from: "laptop".into(),
            msg: Message::ClipboardGrab { id: ClipboardId::Clipboard, seq: 5 },
        },
        &mut buf,
    );
    buf.clear();

    coord.on_event(
        CoordinatorEvent::PeerMessage {
            from: "monitor".into(),
            msg: Message::ClipboardGrab { id: ClipboardId::Clipboard, seq: 3 },
        },
        &mut buf,
    );
    assert!(buf.is_empty(), "stale grab dropped silently");
}

#[test]
fn clipboard_request_forwards_to_owner() {
    let mut coord = make_coord(three_screen_layout());
    let mut buf = vec![];
    connect(&mut coord, "laptop", &mut buf);
    connect(&mut coord, "monitor", &mut buf);

    coord.on_event(
        CoordinatorEvent::PeerMessage {
            from: "laptop".into(),
            msg: Message::ClipboardGrab { id: ClipboardId::Clipboard, seq: 1 },
        },
        &mut buf,
    );
    buf.clear();

    coord.on_event(
        CoordinatorEvent::PeerMessage {
            from: "monitor".into(),
            msg: Message::ClipboardRequest { id: ClipboardId::Clipboard, seq: 1 },
        },
        &mut buf,
    );
    assert!(matches!(
        &buf[0],
        CoordinatorOutput::Send { to, msg: Message::ClipboardRequest { .. } } if to == "laptop"
    ));
}

#[test]
fn crossing_releases_held_keys_and_replays_modifiers() {
    let mut coord = make_coord(three_screen_layout());
    let mut buf = vec![];
    connect(&mut coord, "monitor", &mut buf);
    connect(&mut coord, "laptop", &mut buf);
    local(&mut coord, InputEvent::MouseMove { x: 960, y: 540 }, &mut buf);
    local(&mut coord, InputEvent::MouseMove { x: 2060, y: 540 }, &mut buf);
    buf.clear();

    local(&mut coord, InputEvent::KeyDown { key: KeyId::new(0xffe1), mods: ModifierMask::shift() }, &mut buf);
    local(&mut coord, InputEvent::KeyDown { key: KeyId::new(0x61), mods: ModifierMask::shift() }, &mut buf);
    buf.clear();

    // back across the desk and into the laptop in one jump: 2060 - 2200 = -140
    local(&mut coord, InputEvent::MouseMove { x: -140, y: 540 }, &mut buf);
    assert_eq!(coord.active(), "laptop");
    assert_eq!(coord.seq(), 2);
    let shift = ModifierMask::shift();
    assert_eq!(
        buf,
        vec![
            CoordinatorOutput::Send {
                to: "monitor".into(),
                msg: Message::KeyUp { key: KeyId(0x61), mods: ModifierMask::empty() },
            },
            CoordinatorOutput::Send {
                to: "monitor".into(),
                msg: Message::KeyUp { key: KeyId(0xffe1), mods: ModifierMask::empty() },
            },
            CoordinatorOutput::Send { to: "monitor".into(), msg: Message::ScreenLeave },
            CoordinatorOutput::Send {
                to: "laptop".into(),
                msg: Message::ScreenEnter { x: 1300, y: 540, seq: 2, mask: shift },
            },
            CoordinatorOutput::Send {
                to: "laptop".into(),
                msg: Message::KeyDown { key: KeyId(0xffe1), mods: shift },
            },
        ]
    );
}

#[test]
fn released_keys_are_forgotten_after_crossing() {
    let mut coord = make_coord(three_screen_layout());
    let mut buf = vec![];
    connect(&mut coord, "monitor", &mut buf);
    local(&mut coord, InputEvent::MouseMove { x: 960, y: 540 }, &mut buf);
    local(&mut coord, InputEvent::MouseMove { x: 2060, y: 540 }, &mut buf);
    local(&mut coord, InputEvent::KeyDown { key: KeyId::new(0x61), mods: ModifierMask::empty() }, &mut buf);
    buf.clear();

    local(&mut coord, InputEvent::MouseMove { x: 960, y: 540 }, &mut buf);
    assert_eq!(
        buf,
        vec![
            CoordinatorOutput::Send {
                to: "monitor".into(),
                msg: Message::KeyUp { key: KeyId(0x61), mods: ModifierMask::empty() },
            },
            CoordinatorOutput::Send { to: "monitor".into(), msg: Message::ScreenLeave },
        ]
    );
    local(&mut coord, InputEvent::MouseMove { x: 2060, y: 540 }, &mut buf);
    assert_eq!(coord.active(), "monitor");
    buf.clear();

    local(&mut coord, InputEvent::MouseMove { x: 960, y: 540 }, &mut buf);
    assert_eq!(coord.active(), "desk");
    assert_eq!(buf, vec![CoordinatorOutput::Send { to: "monitor".into(), msg: Message::ScreenLeave }]);
}

#[test]
fn crossing_to_screen_without_client_returns_home_with_warning() {
    let mut coord = make_coord(three_screen_layout());
    let mut buf = vec![];
    local(&mut coord, InputEvent::MouseMove { x: 960, y: 540 }, &mut buf);
    local(&mut coord, InputEvent::MouseMove { x: 2060, y: 540 }, &mut buf);
    assert_eq!(coord.active(), "desk");
    assert_eq!(coord.seq(), 1);
    assert_eq!(coord.cursor(), (2060, 540));
    match &buf[..] {
        [CoordinatorOutput::Warn(w)] => assert_eq!(
            w,
            "crossed into 'monitor' but no client is connected under that name; returning to 'desk'"
        ),
        other => panic!("expected one warning, got {other:?}"),
    }
}

#[test]
fn clipboard_data_goes_to_others_and_local_screen() {
    let mut coord = make_coord(three_screen_layout());
    let mut buf = vec![];
    connect(&mut coord, "laptop", &mut buf);
    connect(&mut coord, "monitor", &mut buf);
    coord.on_event(
        CoordinatorEvent::PeerMessage {
            from: "laptop".into(),
            msg: Message::ClipboardData {
                id: ClipboardId::Clipboard,
                format: ClipboardFormat::Text,
                data: b"hi".to_vec(),
            },
        },
        &mut buf,
    );
    let data = Message::ClipboardData { id: ClipboardId::Clipboard, format: ClipboardFormat::Text, data: b"hi".to_vec() };
    assert_eq!(
        buf,
        vec![
            CoordinatorOutput::Send { to: "monitor".into(), msg: data.duplicate() },
            CoordinatorOutput::InjectLocal(data),
        ]
    );
}

#[test]
fn unexpected_peer_message_and_unowned_request_warn() {
    let mut coord = make_coord(three_screen_layout());
    let mut buf = vec![];
    connect(&mut coord, "laptop", &mut buf);
    coord.on_event(CoordinatorEvent::PeerMessage { from: "laptop".into(), msg: Message::ScreenLeave }, &mut buf);
    coord.on_event(
        CoordinatorEvent::PeerMessage {
            from: "laptop".into(),
            msg: Message::ClipboardRequest { id: ClipboardId::Primary, seq: 1 },
        },
        &mut buf,
    );
    assert_eq!(
        buf,
        vec![
            CoordinatorOutput::Warn("unexpected peer message from 'laptop'".into()),
            CoordinatorOutput::Warn("clipboard request from 'laptop' but no owner recorded for Primary".into()),
        ]
    );
}

#[test]
fn to_local_saturates() {
    assert_eq!(to_local((2060, 540), 1920, 0), (140, 540));
    assert_eq!(to_local((i32::MIN, 0), 1, 0), (i32::MIN, 0));
}

#[test]
fn new_layout_snapshot_takes_effect_on_next_event() {
    let only_desk = ScreenLayout::single_primary("desk");
    let mut coord = Coordinator::new(Arc::new(only_desk), "desk".into());
    let mut buf = vec![];
    connect(&mut coord, "monitor", &mut buf);
    assert!(coord.has_orphan("monitor"), "not in the first layout");
    coord.set_layout(Arc::new(three_screen_layout()));
    buf.clear();
    connect(&mut coord, "monitor", &mut buf);
    assert!(buf.is_empty());
    assert!(coord.has_client("monitor"));
    local(&mut coord, InputEvent::MouseMove { x: 960, y: 540 }, &mut buf);
    local(&mut coord, InputEvent::MouseMove { x: 2060, y: 540 }, &mut buf);
    assert_eq!(coord.active(), "monitor");
}

#[test]
fn disconnect_forgets_client_and_its_clipboard() {
    let mut coord = make_coord(three_screen_layout());
    let mut buf = vec![];
    connect(&mut coord, "laptop", &mut buf);
    connect(&mut coord, "monitor", &mut buf);
    coord.on_event(
        CoordinatorEvent::PeerMessage {
            from: "laptop".into(),
            msg: Message::ClipboardGrab { id: ClipboardId::Clipboard, seq: 4 },
        },
        &mut buf,
    );
    coord.on_event(CoordinatorEvent::ClientDisconnected { name: "laptop".into() }, &mut buf);
    assert!(!coord.has_client("laptop"));
    assert!(coord.has_client("monitor"));
    buf.clear();
    coord.on_event(
        CoordinatorEvent::PeerMessage {
            from: "monitor".into(),
            msg: Message::ClipboardRequest { id: ClipboardId::Clipboard, seq: 4 },
        },
        &mut buf,
    );
    assert_eq!(
        buf,
        vec![CoordinatorOutput::Warn(
            "clipboard request from 'monitor' but no owner recorded for Clipboard".into()
        )]
    );
    // a grab with an older seq is accepted again once the owner is gone
    buf.clear();
    coord.on_event(
        CoordinatorEvent::PeerMessage {
            from: "monitor".into(),
            msg: Message::ClipboardGrab { id: ClipboardId::Clipboard, seq: 1 },
        },
        &mut buf,
    );
    assert!(buf.is_empty(), "no other client to announce it to: {buf:?}");
}
