//! The tray menu.
use vstd::prelude::*;

verus! {

/// What a tray menu entry does.
#[derive(Clone, Copy, Debug, PartialEq, Eq, Structural)]
pub enum TrayAction {
    /// "open": show the history window.
    Open,
    /// "settings": show the window and open the settings.
    Settings,
    /// "upgrade": open the upgrade page.
    Upgrade,
    /// "quit": leave the app.
    Quit,
    /// Any other id.
    Ignore,
}

/// The action of the menu entry with the given id.
pub open spec fn tray_action_of(id: Seq<char>) -> TrayAction {
    if id == "open"@ {
        TrayAction::Open
    } else if id == "settings"@ {
        TrayAction::Settings
    } else if id == "upgrade"@ {
        TrayAction::Upgrade
    } else if id == "quit"@ {
        TrayAction::Quit
    } else {
        TrayAction::Ignore
    }
}

/// The action of the menu entry with the given id.
pub fn tray_action(id: &str) -> (a: TrayAction)
    ensures
        a == tray_action_of(id@),
{
    let id = id.to_owned();
    if id == "open".to_owned() {
        TrayAction::Open
    } else if id == "settings".to_owned() {
        TrayAction::Settings
    } else if id == "upgrade".to_owned() {
        TrayAction::Upgrade
    } else if id == "quit".to_owned() {
        TrayAction::Quit
    } else {
        TrayAction::Ignore
    }
}

} // verus!
