use hop::common::{ButtonId, ClipboardFormat, ClipboardId, KeyId, ModifierMask};
use hop::mock::MockScreen;
use hop::platform::{
    unsupported, EiScreen, InjectedEvent, InputEvent, MacOsScreen, PlatformError, ScreenInfo,
    WindowsScreen,
};

#[test]
fn try_open_errors_with_scaffold_message() {
    match MacOsScreen::try_open() {
        Err(PlatformError::Unavailable(msg)) => {
            assert!(msg.contains("scaffold"), "got {msg}");
        },
        other => panic!("expected Unavailable, got {other:?}"),
    }
}

#[test]
fn screen_try_open_errors_with_scaffold_message() {
    match WindowsScreen::try_open() {
        Err(PlatformError::Unavailable(msg)) => {
            assert!(msg.contains("scaffold"), "got {msg}");
        },
        other => panic!("expected Unavailable, got {other:?}"),
    }
}

#[test]
fn with_info_round_trips() {
    let info = ScreenInfo::stub(2560, 1440);
    let screen = MacOsScreen::with_info(info);
    assert_eq!(screen.screen_info(), info);
}

#[test]
fn screen_with_info_round_trips() {
    let info = ScreenInfo::stub(2560, 1440);
    let screen = WindowsScreen::with_info(info);
    assert_eq!(screen.screen_info(), info);
}

#[test]
fn try_open_errors_without_wayland_display() {
    match EiScreen::try_open(false, true) {
        Err(PlatformError::Unavailable(msg)) => {
            assert!(msg.contains("WAYLAND_DISPLAY"), "got {msg}");
        },
        other => panic!("expected Unavailable, got {other:?}"),
    }
}

#[test]
fn try_open_errors_with_wayland_display_but_scaffold_message() {
    match EiScreen::try_open(true, true) {
        Err(PlatformError::Unavailable(msg)) => {
            assert!(msg.contains("scaffold"), "got {msg}");
        },
        other => panic!("expected Unavailable, got {other:?}"),
    }
}

#[test]
fn ei_without_runtime_dir_names_it() {
    match EiScreen::try_open(true, false) {
        Err(PlatformError::Unavailable(msg)) => {
            assert_eq!(msg, "XDG_RUNTIME_DIR not set; cannot reach the user session bus");
        },
        other => panic!("expected Unavailable, got {other:?}"),
    }
}

#[test]
fn stub_geometry() {
    let info = ScreenInfo::stub(1920, 1080);
    assert_eq!(info.width, 1920);
    assert_eq!(info.height, 1080);
    assert_eq!((info.cursor_x, info.cursor_y), (0, 0));
    assert_eq!(info.scale_factor_pct, 100);
}

#[test]
fn unsupported_names_backend_and_operation() {
    match unsupported("libei", "inject_key") {
        PlatformError::Unavailable(msg) => {
            assert!(msg.contains("libei"));
            assert!(msg.contains("inject_key"));
        },
        other => panic!("expected Unavailable, got {other:?}"),
    }
    match PlatformError::connection_lost("broken pipe") {
        PlatformError::ConnectionLost { message } => assert_eq!(message, "broken pipe"),
        other => panic!("expected ConnectionLost, got {other:?}"),
    }
}

#[test]
fn inject_calls_are_recorded_in_order() {
    let mut screen = MockScreen::default_stub();
    screen.inject_key(KeyId::new(0x61), ModifierMask::shift(), true);
    screen.inject_mouse_move(100, 200);
    screen.inject_mouse_button(ButtonId::left(), false);
    screen.inject_mouse_wheel(0, 120);

    let recorded = screen.injected();
    assert_eq!(recorded.len(), 4);
    assert!(matches!(
        recorded[0],
        InjectedEvent::Key { key: KeyId(0x61), mods: ModifierMask(0x0001), down: true }
    ));
    assert!(matches!(recorded[1], InjectedEvent::MouseMove { x: 100, y: 200 }));
    assert!(matches!(recorded[2], InjectedEvent::MouseButton { button: ButtonId(1), down: false }));
    assert!(matches!(recorded[3], InjectedEvent::MouseWheel { dx: 0, dy: 120 }));
}

#[test]
fn clipboard_round_trip_per_format() {
    let mut screen = MockScreen::default_stub();
    let empty = screen.get_clipboard(ClipboardId::Clipboard, ClipboardFormat::Text);
    assert!(empty.is_empty());

    screen.set_clipboard(ClipboardId::Clipboard, ClipboardFormat::Text, b"hello".to_vec());
    screen.set_clipboard(ClipboardId::Clipboard, ClipboardFormat::Html, b"<b>hi</b>".to_vec());

    let text = screen.get_clipboard(ClipboardId::Clipboard, ClipboardFormat::Text);
    assert_eq!(text.as_slice(), b"hello");
    let html = screen.get_clipboard(ClipboardId::Clipboard, ClipboardFormat::Html);
    assert_eq!(html.as_slice(), b"<b>hi</b>");
}

#[test]
fn clipboard_get_returns_most_recent_set() {
    let mut screen = MockScreen::default_stub();
    screen.set_clipboard(ClipboardId::Clipboard, ClipboardFormat::Text, b"v1".to_vec());
    screen.set_clipboard(ClipboardId::Clipboard, ClipboardFormat::Text, b"v2".to_vec());
    let got = screen.get_clipboard(ClipboardId::Clipboard, ClipboardFormat::Text);
    assert_eq!(got.as_slice(), b"v2");
}

#[test]
fn event_stream_yields_scripted_events_then_empties() {
    let mut screen = MockScreen::default_stub();
    screen.script_events(vec![
        InputEvent::MouseMove { x: 1, y: 2 },
        InputEvent::KeyDown { key: KeyId::new(0x41), mods: ModifierMask::empty() },
    ]);

    let events = screen.take_scripted();
    assert_eq!(events.len(), 2);
    assert!(matches!(events[0], InputEvent::MouseMove { x: 1, y: 2 }));

    let again = screen.take_scripted();
    assert!(again.is_empty());
}

#[test]
fn mock_clipboards_are_independent() {
    let mut screen = MockScreen::new(ScreenInfo::stub(800, 600));
    screen.set_clipboard(ClipboardId::Primary, ClipboardFormat::Text, b"sel".to_vec());
    assert!(screen.get_clipboard(ClipboardId::Clipboard, ClipboardFormat::Text).is_empty());
    assert_eq!(screen.get_clipboard(ClipboardId::Primary, ClipboardFormat::Text), b"sel".to_vec());
    let entries = screen.clipboard_entries();
    assert_eq!(entries.len(), 1);
    assert_eq!(entries[0].id, ClipboardId::Primary);
    assert_eq!(entries[0].data, b"sel".to_vec());
    assert_eq!(screen.screen_info().width, 800);
}
