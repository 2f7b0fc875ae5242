use hop::common::{ButtonId, KeyId, ModifierMask};
use hop::held::{is_modifier_keysym, HeldState};
use hop::platform::InputEvent;
use hop::protocol::Message;

const SHIFT_L: u32 = 0xffe1;
const CTRL_L: u32 = 0xffe3;
const KEY_A: u32 = 0x61;

fn shift_press() -> InputEvent {
    InputEvent::KeyDown { key: KeyId::new(SHIFT_L), mods: ModifierMask::shift() }
}

fn shift_release() -> InputEvent {
    InputEvent::KeyUp { key: KeyId::new(SHIFT_L), mods: ModifierMask::empty() }
}

fn a_press() -> InputEvent {
    InputEvent::KeyDown { key: KeyId::new(KEY_A), mods: ModifierMask::empty() }
}

#[test]
fn initial_state_is_empty() {
    let h = HeldState::default();
    assert_eq!(h.mods(), ModifierMask::empty());
    assert!(!h.any_button_held());
    assert!(h.leave_messages().is_empty());
    assert!(h.enter_messages().is_empty());
}

#[test]
fn non_modifier_key_is_tracked_in_key_set() {
    let mut h = HeldState::default();
    h.apply(&a_press());
    let leave = h.leave_messages();
    assert_eq!(leave.len(), 1);
    let Message::KeyUp { key, mods } = leave[0] else {
        panic!("expected KeyUp, got {:?}", leave[0]);
    };
    assert_eq!(key, KeyId::new(KEY_A));
    assert_eq!(mods, ModifierMask::empty());
}

#[test]
fn modifier_key_is_not_duplicated_in_key_set() {
    let mut h = HeldState::default();
    h.apply(&shift_press());
    let leave = h.leave_messages();
    assert_eq!(leave.len(), 1, "exactly one shift-up: {leave:?}");
    assert!(matches!(leave[0], Message::KeyUp { key: KeyId(SHIFT_L), .. }));
}

#[test]
fn shift_held_replays_on_enter() {
    let mut h = HeldState::default();
    h.apply(&shift_press());
    let enter = h.enter_messages();
    assert_eq!(enter.len(), 1);
    let Message::KeyDown { key, mods } = enter[0] else {
        panic!("expected KeyDown, got {:?}", enter[0]);
    };
    assert_eq!(key, KeyId::new(SHIFT_L));
    assert_eq!(mods, ModifierMask::shift());
}

#[test]
fn letter_held_is_released_on_leave_not_replayed_on_enter() {
    let mut h = HeldState::default();
    h.apply(&a_press());
    assert_eq!(h.leave_messages().len(), 1, "A released on leave");
    assert!(h.enter_messages().is_empty(), "A is NOT re-pressed on enter");
}

#[test]
fn shift_release_clears_mask() {
    let mut h = HeldState::default();
    h.apply(&shift_press());
    h.apply(&shift_release());
    assert_eq!(h.mods(), ModifierMask::empty());
    assert!(h.leave_messages().is_empty());
    assert!(h.enter_messages().is_empty());
}

#[test]
fn button_held_reports_true() {
    let mut h = HeldState::default();
    assert!(!h.any_button_held());
    h.apply(&InputEvent::MouseButton { button: ButtonId::left(), down: true });
    assert!(h.any_button_held());
    h.apply(&InputEvent::MouseButton { button: ButtonId::left(), down: false });
    assert!(!h.any_button_held());
}

#[test]
fn leave_releases_buttons_and_keys() {
    let mut h = HeldState::default();
    h.apply(&shift_press());
    h.apply(&InputEvent::KeyDown { key: KeyId::new(KEY_A), mods: ModifierMask::shift() });
    h.apply(&InputEvent::MouseButton { button: ButtonId::left(), down: true });

    let leave = h.leave_messages();
    let keys_up: Vec<_> = leave.iter().filter(|m| matches!(m, Message::KeyUp { .. })).collect();
    let buttons_up: Vec<_> =
        leave.iter().filter(|m| matches!(m, Message::MouseButton { down: false, .. })).collect();
    assert_eq!(keys_up.len(), 2, "A + Shift: {leave:?}");
    assert_eq!(buttons_up.len(), 1);
    assert!(matches!(leave.last().unwrap(), Message::KeyUp { key: KeyId(SHIFT_L), .. }));
}

#[test]
fn mouse_move_does_not_affect_held_state() {
    let mut h = HeldState::default();
    h.apply(&InputEvent::MouseMove { x: 100, y: 200 });
    h.apply(&InputEvent::MouseWheel { dx: 0, dy: 120 });
    assert_eq!(h, HeldState::default());
}

#[test]
fn multiple_modifiers_replay_in_order() {
    let mut h = HeldState::default();
    h.apply(&InputEvent::KeyDown { key: KeyId::new(SHIFT_L), mods: ModifierMask::shift() });
    h.apply(&InputEvent::KeyDown {
        key: KeyId::new(CTRL_L),
        mods: ModifierMask::shift().union(ModifierMask::ctrl()),
    });
    let enter = h.enter_messages();
    assert_eq!(enter.len(), 2);
    assert!(matches!(enter[0], Message::KeyDown { key: KeyId(SHIFT_L), .. }));
    assert!(matches!(enter[1], Message::KeyDown { key: KeyId(CTRL_L), .. }));
}

#[test]
fn leave_order_is_keys_buttons_then_modifiers() {
    let mut h = HeldState::new();
    h.apply(&InputEvent::KeyDown { key: KeyId::new(0x7a), mods: ModifierMask::ctrl() });
    h.apply(&InputEvent::KeyDown { key: KeyId::new(0x62), mods: ModifierMask::ctrl() });
    h.apply(&InputEvent::MouseButton { button: ButtonId::new(3), down: true });
    h.apply(&InputEvent::MouseButton { button: ButtonId::new(1), down: true });
    let leave = h.leave_messages();
    assert_eq!(
        leave,
        vec![
            Message::KeyUp { key: KeyId(0x62), mods: ModifierMask::empty() },
            Message::KeyUp { key: KeyId(0x7a), mods: ModifierMask::empty() },
            Message::MouseButton { button: ButtonId(1), down: false },
            Message::MouseButton { button: ButtonId(3), down: false },
            Message::KeyUp { key: KeyId(CTRL_L), mods: ModifierMask::empty() },
        ]
    );
    assert_eq!(
        h.enter_messages(),
        vec![Message::KeyDown { key: KeyId(CTRL_L), mods: ModifierMask::ctrl() }]
    );
}

#[test]
fn repeated_press_is_tracked_once_and_release_forgets() {
    let mut h = HeldState::new();
    h.apply(&a_press());
    h.apply(&a_press());
    assert_eq!(h.leave_messages().len(), 1);
    h.apply(&InputEvent::KeyUp { key: KeyId::new(KEY_A), mods: ModifierMask::empty() });
    assert!(h.leave_messages().is_empty());
}

#[test]
fn modifier_keysyms_are_recognised() {
    for k in [0xffe1, 0xffe2, 0xffe3, 0xffe4, 0xffe9, 0xffea, 0xffe7, 0xffe8, 0xffeb, 0xffec, 0xffe5, 0xff7f, 0xff14, 0xfe03] {
        assert!(is_modifier_keysym(k), "{k:#x}");
    }
    assert!(!is_modifier_keysym(0x61));
    assert!(!is_modifier_keysym(0xff0d));
}
