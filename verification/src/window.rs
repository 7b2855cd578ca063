//! The state of hotkey mode: the history window was opened by the hotkey and
//! stays while its modifiers are held; the selected item is pasted when they
//! are released.
use vstd::prelude::*;
use crate::database::opt_text;

verus! {

/// Whether hotkey mode is on.
pub struct HotkeyModeState {
    active: bool,
}

impl View for HotkeyModeState {
    type V = bool;

    closed spec fn view(&self) -> bool {
        self.active
    }
}

impl HotkeyModeState {
    /// Off.
    pub fn new() -> (s: Self)
        ensures
            !s@,
    {
        HotkeyModeState { active: false }
    }

    /// Turns hotkey mode on.
    pub fn enter(&mut self)
        ensures
            final(self)@,
    {
        self.active = true;
    }

    /// Turns hotkey mode off.
    pub fn exit(&mut self)
        ensures
            !final(self)@,
    {
        self.active = false;
    }

    /// Whether hotkey mode is on.
    pub fn is_active(&self) -> (r: bool)
        ensures
            r == self@,
    {
        self.active
    }
}

/// The item selected in the history window, to paste on release.
pub struct SelectedItemState {
    item_id: Option<String>,
}

impl View for SelectedItemState {
    type V = Option<Seq<char>>;

    closed spec fn view(&self) -> Option<Seq<char>> {
        opt_text(self.item_id)
    }
}

impl SelectedItemState {
    /// Nothing selected.
    pub fn new() -> (s: Self)
        ensures
            s@ is None,
    {
        SelectedItemState { item_id: None }
    }

    /// Selects an item, or clears the selection.
    pub fn set(&mut self, item_id: Option<String>)
        ensures
            final(self)@ == opt_text(item_id),
    {
        self.item_id = item_id;
    }

    /// Hands out the selection and clears it.
    pub fn take(&mut self) -> (r: Option<String>)
        ensures
            opt_text(r) == old(self)@,
            final(self)@ is None,
    {
        let r = match &self.item_id {
            Some(s) => Some(s.clone()),
            None => None,
        };
        self.item_id = None;
        r
    }
}

} // verus!
