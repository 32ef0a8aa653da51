//! Keyboard decisions of the camera windows: each pressed key (as the
//! window system reports it) becomes an action of the frame loop.

use vstd::prelude::*;

verus! {

/// What a camera loop does after a key press.
#[derive(Clone, Copy, Debug, PartialEq, Eq, Structural)]
pub enum KeyAction {
    /// Switch between the two image sources (or views) and go on.
    Toggle,
    /// Leave the loop.
    Quit,
    /// Go on with the next frame.
    Stay,
}

/// The key that switches the view.
pub open spec fn toggle_key() -> i32 {
    'f' as i32
}

/// A key that ends a loop: any real key press; the window system reports
/// no key as a non-positive value or 255.
pub open spec fn quits(key: i32) -> bool {
    key > 0 && key != 255
}

/// Which keys end a loop: every key code from 1 to 254 and every code
/// above 255; no code at or below 0, nor 255 (the codes for no key). The
/// switch key is `f`, code 102.
pub proof fn law_quit_keys(key: i32)
    ensures
        1 <= key <= 254 ==> quits(key),
        key >= 256 ==> quits(key),
        key <= 0 ==> !quits(key),
        !quits(255),
        toggle_key() == 102,
{
}

/// The action of a viewer that can switch views with `f`: `f` switches,
/// any other key press quits, no key goes on.
pub fn viewer_key_action(key: i32) -> (a: KeyAction)
    ensures
        key == toggle_key() ==> a == KeyAction::Toggle,
        key != toggle_key() && quits(key) ==> a == KeyAction::Quit,
        key != toggle_key() && !quits(key) ==> a == KeyAction::Stay,
        key == 102 ==> a == KeyAction::Toggle,
        (1 <= key <= 254 || key >= 256) && key != 102 ==> a == KeyAction::Quit,
        key <= 0 || key == 255 ==> a == KeyAction::Stay,
{
    if key == 'f' as i32 {
        KeyAction::Toggle
    } else if key > 0 && key != 255 {
        KeyAction::Quit
    } else {
        KeyAction::Stay
    }
}

/// Whether a viewer without a switch key leaves its loop on this key.
pub fn is_quit_key(key: i32) -> (b: bool)
    ensures
        b == quits(key),
        1 <= key <= 254 ==> b,
        key >= 256 ==> b,
        key <= 0 ==> !b,
        key == 255 ==> !b,
{
    key > 0 && key != 255
}

/// The edge detector's aperture for a trackbar position: the odd sizes
/// 3, 5, 7, ... for positions 0, 1, 2, ...
pub fn aperture_size(position: i32) -> (a: i32)
    requires
        i32::MIN <= 2 * position,
        2 * position + 3 <= i32::MAX,
    ensures
        a == 2 * position + 3,
{
    2 * position + 3
}

} // verus!
