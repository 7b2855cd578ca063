//! Checking hotkey strings.
use vstd::prelude::*;
use crate::window::HotkeyModeState;

verus! {

/// Whether `global_hotkey::hotkey::HotKey::from_str` (the parser behind the
/// global-shortcut plugin's `Shortcut`) accepts the text: a function of the
/// text alone.
pub uninterp spec fn shortcut_parses(text: Seq<char>) -> bool;

/// `str::parse::<HotKey>`: whether it returned `Ok`, named `shortcut_parses`.
#[verifier::external_body]
fn parse_shortcut(hotkey: &str) -> (r: bool)
    ensures
        r == shortcut_parses(hotkey@),
{
    hotkey.parse::<global_hotkey::hotkey::HotKey>().is_ok()
}

/// Whether the hotkey text is a valid shortcut.
pub fn validate_hotkey(hotkey: String) -> (r: Result<bool, String>)
    ensures
        r == Ok::<bool, String>(shortcut_parses(hotkey@)),
{
    Ok(parse_shortcut(hotkey.as_str()))
}

/// A press of the hotkey. When it opens the history window (the window is
/// hidden), hotkey mode is entered, and the caller announces that hotkey mode
/// started before it toggles the window; a press that hides the window leaves
/// the mode as it is. Returns whether the press opens the window.
pub fn on_hotkey_pressed(window_visible: bool, mode: &mut HotkeyModeState) -> (opening: bool)
    ensures
        opening == !window_visible,
        opening ==> final(mode)@,
        !opening ==> final(mode)@ == old(mode)@,
{
    let opening = !window_visible;
    if opening {
        mode.enter();
    }
    opening
}

} // verus!
