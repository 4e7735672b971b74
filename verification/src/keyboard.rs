//! When the soft keyboard goes up and down.
//!
//! Two independent signals say that a text field has focus: the in-game UI's single "typing"
//! flag (some edit box has focus), and being on the login screen, where a login field is always
//! logically focused. The keyboard should be up exactly while either holds, and the platform call
//! that raises or lowers it fires only on a change, never every frame.
use vstd::prelude::*;

verus! {

/// Last frame's answer: was a text field focused?
#[derive(Clone, Copy, Debug, Default)]
pub struct WasTyping(pub bool);

/// Should the keyboard be up: some UI edit box has focus, or the login screen is showing.
pub open spec fn typing(ui_typing: bool, on_login_screen: bool) -> bool {
    ui_typing || on_login_screen
}

/// The call a frame makes: `Some(show)` when the answer changed from `was`, else nothing.
pub open spec fn edge_for(was: bool, ui_typing: bool, on_login_screen: bool) -> Option<bool> {
    if typing(ui_typing, on_login_screen) == was {
        None
    } else {
        Some(typing(ui_typing, on_login_screen))
    }
}

/// Whether the keyboard is up after a frame's call (or lack of one).
pub open spec fn shown_after(shown: bool, edge: Option<bool>) -> bool {
    match edge {
        Some(show) => show,
        None => shown,
    }
}

/// One frame of the keyboard driver. Returns `Some(show)` when the keyboard must be shown
/// (`true`) or hidden (`false`) this frame, and `None` when nothing changed; `was` then holds
/// this frame's answer.
pub fn drive_soft_keyboard(was: &mut WasTyping, ui_typing: bool, on_login_screen: bool) -> (edge:
    Option<bool>)
    ensures
        final(was).0 == typing(ui_typing, on_login_screen),
        edge == edge_for(old(was).0, ui_typing, on_login_screen),
{
    let now = ui_typing || on_login_screen;
    if now == was.0 {
        return None;
    }
    was.0 = now;
    Some(now)
}

/// Either signal alone raises the keyboard, and it is down only when neither holds.
pub proof fn lemma_either_signal_types(ui_typing: bool, on_login_screen: bool)
    ensures
        typing(true, on_login_screen),
        typing(ui_typing, true),
        !typing(false, false),
        edge_for(false, ui_typing, on_login_screen) is Some ==> (ui_typing || on_login_screen),
        edge_for(true, ui_typing, on_login_screen) is Some ==> !ui_typing && !on_login_screen,
{
}

/// The keyboard call fires only on a change: a frame that finds the same focus as the frame
/// before fires nothing.
pub proof fn lemma_edge_fires_once(ui_typing: bool, on_login_screen: bool)
    ensures
        edge_for(typing(ui_typing, on_login_screen), ui_typing, on_login_screen) is None,
{
}

/// While the keyboard's state agrees with `was` (it starts down, as `was` starts false), every
/// frame leaves it up exactly when a text field has focus, and in agreement with `was` again.
pub proof fn lemma_keyboard_follows_focus(shown: bool, ui_typing: bool, on_login_screen: bool)
    ensures
        shown_after(shown, edge_for(shown, ui_typing, on_login_screen)) == typing(
            ui_typing,
            on_login_screen,
        ),
{
}

} // verus!
