use shikane::mode::ParseModeError::{
    MissingHeight, MissingRefresh, MissingSeparator, MissingWidth, ParseInt, ParseRefresh,
};
use shikane::mode::{
    AdaptiveSyncState, Mode, ParseModeError, ParsePositionError, Position, Transform,
};

fn mwh(w: i32, h: i32) -> Mode {
    Mode::WiHe(w, h)
}
fn mwhr(w: i32, h: i32, r: i32) -> Mode {
    Mode::WiHeRe(w, h, r)
}
fn mwhrc(w: i32, h: i32, r: i32) -> Mode {
    Mode::WiHeReCustom(w, h, r)
}

#[test]
fn parse_mode_from_str_ok() {
    let cases = [
        ("best", Mode::Best),
        ("preferred", Mode::Preferred),
        ("123x456", mwh(123, 456)),
        ("123x456@30", mwhr(123, 456, 30_000)),
        ("123x456@30.123", mwhr(123, 456, 30_123)),
        ("123x456@30.123456789", mwhr(123, 456, 30_123)),
        ("123x456@30Hz", mwhr(123, 456, 30_000)),
        ("123x456@30.123Hz", mwhr(123, 456, 30_123)),
        ("123x456@30.123456789Hz", mwhr(123, 456, 30_123)),
        ("!123x456@30", mwhrc(123, 456, 30_000)),
        ("!123x456@30.123", mwhrc(123, 456, 30_123)),
        ("!123x456@30.123456789", mwhrc(123, 456, 30_123)),
        ("!123x456@30Hz", mwhrc(123, 456, 30_000)),
        ("!123x456@30.123Hz", mwhrc(123, 456, 30_123)),
        ("!123x456@30.123456789Hz", mwhrc(123, 456, 30_123)),
    ];
    for (s, m) in cases {
        assert_eq!(Mode::from_str(s), Ok(m), "{}", s);
    }
}

#[test]
fn parse_mode_from_str_err() {
    let lez = |value: i32| ParseModeError::LessOrEqualZero { value };
    let cases = [
        ("b", MissingSeparator),
        ("p", MissingSeparator),
        ("!", MissingSeparator),
        ("x", MissingWidth),
        ("@", MissingSeparator),
        ("Hz", MissingSeparator),
        ("!1920x1080", MissingRefresh),
        ("!1920x1080@", ParseRefresh),
        ("!1920x1080@word", ParseRefresh),
        ("!1920x1080@wordHz", ParseRefresh),
        ("!1920x1080@Hz", ParseRefresh),
        ("!1920x1080@0Hz", lez(0)),
        ("!1920x1080@0", lez(0)),
        ("!0x1080@10", lez(0)),
        ("!1920x0@10", lez(0)),
        ("1920x1080@", ParseRefresh),
        ("1920x1080@word", ParseRefresh),
        ("1920x1080@wordHz", ParseRefresh),
        ("1920x1080@Hz", ParseRefresh),
        ("1920x1080@0Hz", lez(0)),
        ("1920x1080@0", lez(0)),
        ("0x1080@10", lez(0)),
        ("1920x0@10", lez(0)),
        ("1920x", MissingHeight),
        ("axb", ParseInt),
    ];
    for (s, e) in cases {
        assert_eq!(Mode::from_str(s), Err(e), "{}", s);
    }
}

#[test]
fn mode_short_hz_string() {
    let cases = [
        ("best", Mode::Best),
        ("preferred", Mode::Preferred),
        ("123x456", mwh(123, 456)),
        ("123x456@30Hz", mwhr(123, 456, 30_000)),
        ("123x456@30.123Hz", mwhr(123, 456, 30_123)),
        ("123x456@30.001Hz", mwhr(123, 456, 30_001)),
        ("123x456@59.95Hz", mwhr(123, 456, 59_950)),
        ("!123x456@30Hz", mwhrc(123, 456, 30_000)),
        ("!123x456@30.123Hz", mwhrc(123, 456, 30_123)),
        ("!123x456@30.001Hz", mwhrc(123, 456, 30_001)),
    ];
    for (s, m) in cases {
        assert_eq!(m.to_short_hz_string(), s);
        assert_eq!(Mode::from_str(s), Ok(m));
    }
}

#[test]
fn mode_refresh_and_custom() {
    assert_eq!(mwhr(1, 2, 3).refresh(), Some(3));
    assert_eq!(mwhrc(1, 2, 3).refresh(), Some(3));
    assert_eq!(mwh(1, 2).refresh(), None);
    assert!(mwhrc(1, 2, 3).is_custom());
    assert!(!mwhr(1, 2, 3).is_custom());
}

#[test]
fn position_text() {
    assert_eq!(Position::from_str("0,0"), Ok(Position { x: 0, y: 0 }));
    assert_eq!(Position::from_str("-1920,1080"), Ok(Position { x: -1920, y: 1080 }));
    assert_eq!(Position::from_str("10"), Err(ParsePositionError::Separator));
    assert_eq!(Position::from_str(",10"), Err(ParsePositionError::MissingX));
    assert_eq!(Position::from_str("10,"), Err(ParsePositionError::MissingY));
    assert_eq!(Position::from_str("a,10"), Err(ParsePositionError::ParseInt));
    let p = Position { x: -5, y: 1200 };
    assert_eq!(p.to_string(), "-5,1200");
    assert_eq!(Position::from_str(&p.to_string()), Ok(p));
}

#[test]
fn transform_and_adaptive_sync_text() {
    let all = [
        Transform::Normal,
        Transform::_90,
        Transform::_180,
        Transform::_270,
        Transform::Flipped,
        Transform::Flipped90,
        Transform::Flipped180,
        Transform::Flipped270,
    ];
    for t in all {
        assert_eq!(Transform::from_str(t.as_str()), Some(t));
    }
    assert_eq!(Transform::_90.as_str(), "90");
    assert_eq!(Transform::Flipped270.as_str(), "flipped-270");
    assert_eq!(Transform::from_str("sideways"), None);
    for a in [AdaptiveSyncState::Disabled, AdaptiveSyncState::Enabled] {
        assert_eq!(AdaptiveSyncState::from_str(a.as_str()), Some(a));
    }
}
