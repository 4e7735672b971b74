use benilla_app::keyboard::{drive_soft_keyboard, WasTyping};

/// The client starts on the login screen, where a login field is always focused: the driver reads
/// "typing" from the very first frame, before any UI edit box takes focus.
#[test]
fn the_login_screen_starts_typing_with_no_frame_focused() {
    let mut was = WasTyping::default();
    drive_soft_keyboard(&mut was, false, true);
    assert!(was.0);
}

/// Leaving the login screen for character select, with no UI box focused either, drops back to
/// "not typing".
#[test]
fn leaving_login_with_nothing_else_focused_stops_typing() {
    let mut was = WasTyping::default();
    drive_soft_keyboard(&mut was, false, true);
    drive_soft_keyboard(&mut was, false, false);
    assert!(!was.0);
}

/// A UI box taking focus on a non-login screen is the other half of the OR.
#[test]
fn a_framexml_box_focused_outside_login_still_types() {
    let mut was = WasTyping::default();
    drive_soft_keyboard(&mut was, false, false);
    assert!(!was.0);
    drive_soft_keyboard(&mut was, true, false);
    assert!(was.0);
}

#[test]
fn the_keyboard_call_fires_only_on_a_change() {
    let mut was = WasTyping::default();
    assert_eq!(drive_soft_keyboard(&mut was, false, true), Some(true));
    assert_eq!(drive_soft_keyboard(&mut was, false, true), None);
    assert_eq!(drive_soft_keyboard(&mut was, true, true), None);
    assert_eq!(drive_soft_keyboard(&mut was, true, false), None);
    assert_eq!(drive_soft_keyboard(&mut was, false, false), Some(false));
    assert_eq!(drive_soft_keyboard(&mut was, false, false), None);
    assert!(!was.0);
}

#[test]
fn nothing_focused_from_the_start_fires_nothing() {
    let mut was = WasTyping::default();
    assert_eq!(drive_soft_keyboard(&mut was, false, false), None);
    assert!(!was.0);
}
