use tcgscan::controls::{aperture_size, is_quit_key, viewer_key_action, KeyAction};

#[test]
fn viewer_keys() {
    assert_eq!(viewer_key_action('f' as i32), KeyAction::Toggle);
    assert_eq!(viewer_key_action('q' as i32), KeyAction::Quit);
    assert_eq!(viewer_key_action(27), KeyAction::Quit);
    assert_eq!(viewer_key_action(-1), KeyAction::Stay);
    assert_eq!(viewer_key_action(0), KeyAction::Stay);
    assert_eq!(viewer_key_action(255), KeyAction::Stay);
}

#[test]
fn quit_keys() {
    assert!(is_quit_key('f' as i32));
    assert!(is_quit_key(1));
    assert!(!is_quit_key(-1));
    assert!(!is_quit_key(255));
}

#[test]
fn aperture_sizes_are_odd() {
    assert_eq!(aperture_size(0), 3);
    assert_eq!(aperture_size(1), 5);
    assert_eq!(aperture_size(3), 9);
}
