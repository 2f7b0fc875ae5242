use hop::common::{ButtonId, ClipboardFormat, ClipboardId, KeyId};
use hop::platform::PlatformError;
use hop::selection::{answer_selection_request, store_selection, Atoms, OwnedStore, SelectionAnswer, NONE_ATOM};
use hop::x11::{
    button_input, key_input, motion_input, wheel_plan, FakeInput, KeyMap, WheelClicks, BUTTON_PRESS,
    BUTTON_RELEASE, KEY_PRESS, KEY_RELEASE, MOTION_NOTIFY,
};

fn atoms() -> Atoms {
    Atoms { clipboard: 10, primary: 11, utf8_string: 20, html: 21, targets: 30, reply_prop: 40, wakeup: 41 }
}

#[test]
fn keymap_takes_first_nonzero_keysym_of_lowest_keycode() {
    // keycodes 8, 9, 10 with two keysyms each
    let syms = [0x61, 0x41, 0, 0x62, 0x61, 0x63];
    let map = KeyMap::from_mapping(8, 2, &syms);
    assert_eq!(map.keycode(0x61), Some(8));
    assert_eq!(map.keycode(0x62), Some(9));
    assert_eq!(map.keycode(0x41), None, "shifted keysyms are not mapped");
    assert_eq!(map.keycode(0x63), None);
    assert_eq!(map.keycode(0), None, "the empty keysym has no keycode");
}

#[test]
fn keymap_handles_short_last_keycode() {
    let map = KeyMap::from_mapping(250, 3, &[0, 0, 0x31, 0x32]);
    assert_eq!(map.keycode(0x31), Some(250));
    assert_eq!(map.keycode(0x32), Some(251));
}

#[test]
fn inject_key_for_unknown_keysym_is_a_no_op() {
    let map = KeyMap::from_mapping(8, 1, &[0x61]);
    assert_eq!(key_input(&map, KeyId::new(0xffff), true), None);
    assert_eq!(
        key_input(&map, KeyId::new(0x61), false),
        Some(FakeInput { event_type: KEY_RELEASE, detail: 8, root_x: 0, root_y: 0 })
    );
    assert_eq!(key_input(&map, KeyId::new(0x61), true).unwrap().event_type, KEY_PRESS);
}

#[test]
fn button_and_motion_requests() {
    assert_eq!(
        button_input(ButtonId::new(3), true),
        FakeInput { event_type: BUTTON_PRESS, detail: 3, root_x: 0, root_y: 0 }
    );
    assert_eq!(button_input(ButtonId::left(), false).event_type, BUTTON_RELEASE);
    assert_eq!(motion_input(100, -5), FakeInput { event_type: MOTION_NOTIFY, detail: 0, root_x: 100, root_y: -5 });
    let far = motion_input(40000, -40000);
    assert_eq!((far.root_x, far.root_y), (i16::MAX, i16::MAX));
}

#[test]
fn inject_mouse_wheel_emits_button_ticks() {
    assert_eq!(wheel_plan(0, 120), vec![WheelClicks { button: 5, count: 1 }]);
    assert_eq!(wheel_plan(0, -360), vec![WheelClicks { button: 4, count: 3 }]);
    assert_eq!(wheel_plan(30, 0), vec![WheelClicks { button: 7, count: 1 }], "sub-tick still clicks once");
    assert_eq!(
        wheel_plan(-250, 130),
        vec![WheelClicks { button: 5, count: 1 }, WheelClicks { button: 6, count: 2 }]
    );
    assert!(wheel_plan(0, 0).is_empty());
}

#[test]
fn selection_atoms_and_targets() {
    let a = atoms();
    assert_eq!(a.selection_atom(ClipboardId::Clipboard), 10);
    assert_eq!(a.selection_atom(ClipboardId::Primary), 11);
    assert_eq!(a.format_target(ClipboardFormat::Text), Some(20));
    assert_eq!(a.format_target(ClipboardFormat::Html), Some(21));
    assert_eq!(a.format_target(ClipboardFormat::Bitmap), None);
    assert_eq!(a.read_request(ClipboardId::Primary, ClipboardFormat::Html), Some((11, 21)));
    assert_eq!(a.read_request(ClipboardId::Primary, ClipboardFormat::Files), None);
}

#[test]
fn written_selection_is_served_back() {
    let a = atoms();
    let mut owned = OwnedStore::new();
    assert_eq!(store_selection(&a, &mut owned, ClipboardId::Clipboard, ClipboardFormat::Text, b"one".to_vec()).unwrap(), 10);
    store_selection(&a, &mut owned, ClipboardId::Clipboard, ClipboardFormat::Html, b"<i>".to_vec()).unwrap();
    store_selection(&a, &mut owned, ClipboardId::Clipboard, ClipboardFormat::Text, b"two".to_vec()).unwrap();
    match answer_selection_request(&a, &owned, 10, 20, 55) {
        SelectionAnswer::Data { property, data } => {
            assert_eq!(property, 55);
            assert_eq!(data, b"two".to_vec());
        },
        other => panic!("expected Data, got {other:?}"),
    }
    match answer_selection_request(&a, &owned, 10, 30, NONE_ATOM) {
        SelectionAnswer::Targets { property, mut targets } => {
            assert_eq!(property, 30, "no property named: reply into the target");
            targets.sort();
            assert_eq!(targets, vec![20, 21]);
        },
        other => panic!("expected Targets, got {other:?}"),
    }
    assert!(matches!(answer_selection_request(&a, &owned, 11, 20, 55), SelectionAnswer::Refuse));
    assert_eq!(owned.get(10, 21).unwrap(), &b"<i>".to_vec());
    assert_eq!(owned.targets_for(11), Vec::<u32>::new());
}

#[test]
fn unsupported_format_write_is_refused() {
    let a = atoms();
    let mut owned = OwnedStore::new();
    match store_selection(&a, &mut owned, ClipboardId::Clipboard, ClipboardFormat::Bitmap, vec![1]) {
        Err(PlatformError::UnsupportedFormat { format }) => assert_eq!(format, ClipboardFormat::Bitmap),
        other => panic!("expected UnsupportedFormat, got {other:?}"),
    }
    assert!(owned.get(10, 20).is_none());
}
