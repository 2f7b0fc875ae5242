use hop::layout::{resolve_load, resolve_reload, LayoutError, LayoutSource, ScreenEntry, ScreenLayout};

fn screen(name: &str, x: i32, y: i32, w: u32, h: u32) -> ScreenEntry {
    ScreenEntry { name: name.into(), origin_x: x, origin_y: y, width: w, height: h }
}

#[test]
fn contains_half_open_rect() {
    let s = screen("a", 0, 0, 100, 100);
    assert!(s.contains(0, 0), "top-left corner is inside");
    assert!(s.contains(99, 99), "bottom-right-minus-one is inside");
    assert!(!s.contains(100, 50), "right edge is outside (half-open)");
    assert!(!s.contains(50, 100), "bottom edge is outside");
    assert!(!s.contains(-1, 50), "left of origin is outside");
}

#[test]
fn contains_respects_negative_origin() {
    let s = screen("laptop", -1440, 90, 1440, 900);
    assert!(s.contains(-1440, 90));
    assert!(s.contains(-1, 500));
    assert!(!s.contains(0, 500));
}

#[test]
fn clamp_is_identity_inside() {
    let s = screen("a", 0, 0, 100, 100);
    assert_eq!(s.clamp(50, 50), (50, 50));
}

#[test]
fn clamp_pulls_back_when_outside() {
    let s = screen("a", 0, 0, 100, 100);
    assert_eq!(s.clamp(200, 50), (99, 50));
    assert_eq!(s.clamp(-10, 50), (0, 50));
    assert_eq!(s.clamp(50, 200), (50, 99));
}

#[test]
fn screen_at_finds_right_screen() {
    let layout = ScreenLayout {
        primary: "desk".into(),
        screens: vec![
            screen("laptop", -1440, 0, 1440, 900),
            screen("desk", 0, 0, 1920, 1080),
            screen("monitor", 1920, 0, 2560, 1440),
        ],
    };
    assert_eq!(layout.screen_at(-100, 500).unwrap().name, "laptop");
    assert_eq!(layout.screen_at(500, 500).unwrap().name, "desk");
    assert_eq!(layout.screen_at(2500, 500).unwrap().name, "monitor");
}

#[test]
fn screen_at_gap_returns_none() {
    let layout = ScreenLayout {
        primary: "a".into(),
        screens: vec![screen("a", 0, 0, 100, 100), screen("b", 200, 0, 100, 100)],
    };
    assert!(layout.screen_at(150, 50).is_none(), "gap between screens");
}

#[test]
fn screen_by_name_returns_expected() {
    let layout = ScreenLayout {
        primary: "a".into(),
        screens: vec![screen("a", 0, 0, 100, 100), screen("b", 100, 0, 100, 100)],
    };
    assert_eq!(layout.screen_by_name("b").unwrap().origin_x, 100);
    assert!(layout.screen_by_name("missing").is_none());
}

#[test]
fn single_primary_builds_valid_layout() {
    let layout = ScreenLayout::single_primary("solo");
    assert_eq!(layout.primary, "solo");
    assert_eq!(layout.screens.len(), 1);
    assert_eq!(layout.screens[0].name, "solo");
    layout.validate().expect("single_primary is valid");
}

#[test]
fn validate_rejects_primary_missing_from_list() {
    let layout = ScreenLayout { primary: "ghost".into(), screens: vec![screen("a", 0, 0, 100, 100)] };
    assert!(matches!(layout.validate(), Err(LayoutError::PrimaryNotInScreens { .. })));
}

#[test]
fn validate_rejects_zero_size() {
    let layout = ScreenLayout { primary: "a".into(), screens: vec![screen("a", 0, 0, 0, 100)] };
    assert!(matches!(layout.validate(), Err(LayoutError::DegenerateScreen { .. })));
}

#[test]
fn validate_rejects_duplicate_names() {
    let layout = ScreenLayout {
        primary: "a".into(),
        screens: vec![screen("a", 0, 0, 100, 100), screen("a", 100, 0, 100, 100)],
    };
    assert!(matches!(layout.validate(), Err(LayoutError::DuplicateScreen { .. })));
}

#[test]
fn store_load_missing_file_falls_back_to_single_primary() {
    let snap = resolve_load(LayoutSource::Missing("not found".into()), "/tmp/hop-missing.toml", "desk")
        .expect("load falls back");
    assert_eq!(snap.primary, "desk");
    assert_eq!(snap.screens.len(), 1);
}

#[test]
fn validate_reports_first_violation_in_order() {
    let layout = ScreenLayout {
        primary: "a".into(),
        screens: vec![screen("a", 0, 0, 100, 100), screen("b", 0, 0, 0, 5), screen("a", 1, 1, 1, 1)],
    };
    match layout.validate() {
        Err(LayoutError::DegenerateScreen { name }) => assert_eq!(name, "b"),
        other => panic!("expected DegenerateScreen, got {other:?}"),
    }
    let dup = ScreenLayout {
        primary: "z".into(),
        screens: vec![screen("x", 0, 0, 1, 1), screen("z", 1, 0, 1, 1), screen("x", 2, 0, 1, 1)],
    };
    match dup.validate() {
        Err(LayoutError::DuplicateScreen { name }) => assert_eq!(name, "x"),
        other => panic!("expected DuplicateScreen, got {other:?}"),
    }
}

#[test]
fn screen_at_prefers_first_listed_overlap() {
    let layout = ScreenLayout {
        primary: "a".into(),
        screens: vec![screen("a", 0, 0, 100, 100), screen("b", 50, 0, 100, 100)],
    };
    assert_eq!(layout.screen_at(75, 10).unwrap().name, "a");
    assert_eq!(layout.screen_at(120, 10).unwrap().name, "b");
}

#[test]
fn contains_saturates_huge_sizes() {
    let s = screen("big", i32::MAX - 10, 0, u32::MAX, 10);
    assert!(s.contains(i32::MAX - 1, 5));
    assert!(!s.contains(i32::MAX, 5), "saturated edge stays exclusive");
    assert_eq!(s.clamp(i32::MAX, 100), (i32::MAX, 9));
}

#[test]
fn load_accepts_valid_parsed_layout() {
    let layout = ScreenLayout {
        primary: "desk".into(),
        screens: vec![screen("desk", 0, 0, 1920, 1080), screen("laptop", -1440, 0, 1440, 900)],
    };
    let got = resolve_load(LayoutSource::Parsed(layout), "layout.toml", "ignored").unwrap();
    assert_eq!(got.primary, "desk");
    assert_eq!(got.screens.len(), 2);
    assert_eq!(got.screens[1].origin_x, -1440);
}

#[test]
fn load_rejects_invalid_or_unreadable_files() {
    let bad = ScreenLayout { primary: "ghost".into(), screens: vec![screen("a", 0, 0, 1, 1)] };
    assert!(matches!(
        resolve_load(LayoutSource::Parsed(bad), "l.toml", "a"),
        Err(LayoutError::PrimaryNotInScreens { .. })
    ));
    match resolve_load(LayoutSource::Unparsable("expected `=`".into()), "l.toml", "a") {
        Err(LayoutError::Parse(msg)) => assert_eq!(msg, "expected `=`"),
        other => panic!("expected Parse, got {other:?}"),
    }
    match resolve_load(LayoutSource::Unreadable("permission denied".into()), "l.toml", "a") {
        Err(LayoutError::Io { path, message }) => {
            assert_eq!(path, "l.toml");
            assert_eq!(message, "permission denied");
        },
        other => panic!("expected Io, got {other:?}"),
    }
}

#[test]
fn reload_without_backing_file_fails() {
    match resolve_reload(LayoutSource::Missing("gone".into()), "") {
        Err(LayoutError::Io { path, message }) => {
            assert_eq!(path, "");
            assert_eq!(message, "LayoutStore has no backing file to reload from");
        },
        other => panic!("expected Io, got {other:?}"),
    }
    match resolve_reload(LayoutSource::Missing("gone".into()), "l.toml") {
        Err(LayoutError::Io { message, .. }) => assert_eq!(message, "gone"),
        other => panic!("expected Io, got {other:?}"),
    }
    let v2 = ScreenLayout {
        primary: "desk".into(),
        screens: vec![screen("desk", 0, 0, 1920, 1080), screen("laptop", -1440, 0, 1440, 900)],
    };
    assert_eq!(resolve_reload(LayoutSource::Parsed(v2), "l.toml").unwrap().screens.len(), 2);
}
