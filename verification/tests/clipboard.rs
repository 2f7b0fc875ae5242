use hop::clipboard::ClipboardGrabState;
use hop::common::ClipboardId;

#[test]
fn empty_initial_state() {
    let s = ClipboardGrabState::default();
    assert_eq!(s.current_seq(ClipboardId::Clipboard), 0);
    assert!(s.owner_of(ClipboardId::Clipboard).is_none());
    assert_eq!(s.tracked_count(), 0);
}

#[test]
fn first_grab_accepted() {
    let mut s = ClipboardGrabState::default();
    assert!(s.on_grab("laptop".into(), ClipboardId::Clipboard, 1));
    assert_eq!(s.current_seq(ClipboardId::Clipboard), 1);
    assert_eq!(s.owner_of(ClipboardId::Clipboard).unwrap(), "laptop");
}

#[test]
fn newer_seq_replaces_owner() {
    let mut s = ClipboardGrabState::default();
    s.on_grab("laptop".into(), ClipboardId::Clipboard, 1);
    assert!(s.on_grab("desk".into(), ClipboardId::Clipboard, 2));
    assert_eq!(s.owner_of(ClipboardId::Clipboard).unwrap(), "desk");
    assert_eq!(s.current_seq(ClipboardId::Clipboard), 2);
}

#[test]
fn stale_or_equal_seq_rejected() {
    let mut s = ClipboardGrabState::default();
    s.on_grab("laptop".into(), ClipboardId::Clipboard, 5);
    assert!(!s.on_grab("desk".into(), ClipboardId::Clipboard, 5));
    assert!(!s.on_grab("desk".into(), ClipboardId::Clipboard, 3));
    assert_eq!(s.owner_of(ClipboardId::Clipboard).unwrap(), "laptop");
}

#[test]
fn primary_and_clipboard_track_independently() {
    let mut s = ClipboardGrabState::default();
    s.on_grab("laptop".into(), ClipboardId::Clipboard, 1);
    s.on_grab("desk".into(), ClipboardId::Primary, 1);
    assert_eq!(s.owner_of(ClipboardId::Clipboard).unwrap(), "laptop");
    assert_eq!(s.owner_of(ClipboardId::Primary).unwrap(), "desk");
    assert_eq!(s.tracked_count(), 2);
}

#[test]
fn drop_owner_removes_only_matching_entries() {
    let mut s = ClipboardGrabState::default();
    s.on_grab("laptop".into(), ClipboardId::Clipboard, 1);
    s.on_grab("laptop".into(), ClipboardId::Primary, 2);
    s.on_grab("desk".into(), ClipboardId::Clipboard, 3);

    s.drop_owner("laptop");
    assert!(s.owner_of(ClipboardId::Primary).is_none());
    assert_eq!(s.owner_of(ClipboardId::Clipboard).unwrap(), "desk");
}

#[test]
fn first_grab_with_seq_zero_is_accepted() {
    let mut s = ClipboardGrabState::new();
    assert!(s.on_grab("laptop".into(), ClipboardId::Primary, 0));
    assert_eq!(s.current_seq(ClipboardId::Primary), 0);
    assert_eq!(s.owner_of(ClipboardId::Primary).unwrap(), "laptop");
    assert!(!s.on_grab("desk".into(), ClipboardId::Primary, 0));
    assert_eq!(s.tracked_count(), 1);
}
