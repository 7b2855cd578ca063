//! The decisions of the modifier poll that runs while the app is up: keep the
//! global shortcut out of the way during hotkey mode, cycle on V, cancel on
//! Escape, and paste the selection once the modifiers are released.
use vstd::prelude::*;
use crate::window::{HotkeyModeState, SelectedItemState};

verus! {

/// What to do with the global shortcut.
#[derive(Clone, Copy, Debug, PartialEq, Eq, Structural)]
pub enum ShortcutChange {
    Keep,
    /// Hotkey mode began: unregister, so V presses reach the poll.
    Unregister,
    /// Hotkey mode ended: register the configured hotkey again.
    Register,
}

/// How a poll ends.
#[derive(Clone, Copy, Debug, PartialEq, Eq, Structural)]
pub enum PollOutcome {
    /// Nothing more to do until the next poll.
    Idle,
    /// Escape: leave hotkey mode, drop the selection, hide the window.
    Cancel,
    /// All modifiers are up: wait the grace period, then `finish_release`.
    CheckRelease,
}

/// The decision of one poll.
#[derive(Clone, Copy, Debug, PartialEq, Eq, Structural)]
pub struct PollDecision {
    pub shortcut: ShortcutChange,
    /// Emit "hotkey-cycle".
    pub emit_cycle: bool,
    pub outcome: PollOutcome,
}

/// The keys read during one poll.
#[derive(Clone, Copy, Debug, PartialEq, Eq, Structural)]
pub struct KeyReadings {
    pub escape: bool,
    pub v: bool,
    pub command: bool,
    pub shift: bool,
}

/// What the poll remembers between rounds.
pub struct ModifierPoller {
    was_active: bool,
    v_was_pressed: bool,
}

/// The poll's memory as values: (hotkey mode was on, V was down).
impl View for ModifierPoller {
    type V = (bool, bool);

    closed spec fn view(&self) -> (bool, bool) {
        (self.was_active, self.v_was_pressed)
    }
}

/// One poll: from the memory, whether hotkey mode is on, and the keys, the new
/// memory and the decision.
pub open spec fn poll_step(memory: (bool, bool), is_active: bool, keys: KeyReadings) -> (
    (bool, bool),
    PollDecision,
) {
    let (was_active, v_was) = memory;
    let shortcut = if is_active && !was_active {
        ShortcutChange::Unregister
    } else if !is_active && was_active {
        ShortcutChange::Register
    } else {
        ShortcutChange::Keep
    };
    let v_held = if is_active && !was_active {
        true
    } else if !is_active && was_active {
        false
    } else {
        v_was
    };
    if !is_active {
        ((false, v_held), PollDecision { shortcut, emit_cycle: false, outcome: PollOutcome::Idle })
    } else {
        let outcome = if keys.escape {
            PollOutcome::Cancel
        } else if !keys.command && !keys.shift {
            PollOutcome::CheckRelease
        } else {
            PollOutcome::Idle
        };
        ((true, keys.v), PollDecision { shortcut, emit_cycle: keys.v && !v_held, outcome })
    }
}

/// How a poll ends: with hotkey mode off, idle; with it on, Escape cancels,
/// and otherwise the poll goes on to the release check exactly when both
/// Command and Shift are up (with either still held it stays idle). A cycle
/// is announced only while hotkey mode is on, on a V press that was not
/// already down at the last poll of hotkey mode, nor at the poll that began it;
/// the poll then remembers that hotkey mode is on and whether V is down.
pub proof fn lemma_poll_outcome(memory: (bool, bool), is_active: bool, keys: KeyReadings)
    ensures
        !is_active ==> poll_step(memory, is_active, keys).1.outcome == PollOutcome::Idle,
        is_active && keys.escape ==> poll_step(memory, is_active, keys).1.outcome
            == PollOutcome::Cancel,
        is_active && !keys.escape ==> (poll_step(memory, is_active, keys).1.outcome
            == PollOutcome::CheckRelease <==> !keys.command && !keys.shift),
        is_active && !keys.escape && (keys.command || keys.shift) ==> poll_step(
            memory,
            is_active,
            keys,
        ).1.outcome == PollOutcome::Idle,
        poll_step(memory, is_active, keys).1.emit_cycle <==> is_active && keys.v && memory.0
            && !memory.1,
        is_active ==> poll_step(memory, is_active, keys).0 == (true, keys.v),
        !is_active ==> !poll_step(memory, is_active, keys).0.0,
{
}

impl ModifierPoller {
    /// Hotkey mode off, V up.
    pub fn new() -> (p: Self)
        ensures
            p@ == (false, false),
    {
        ModifierPoller { was_active: false, v_was_pressed: false }
    }

    /// One round of the poll.
    pub fn step(&mut self, is_active: bool, keys: KeyReadings) -> (d: PollDecision)
        ensures
            poll_step(old(self)@, is_active, keys) == (final(self)@, d),
    {
        let mut shortcut = ShortcutChange::Keep;
        if is_active && !self.was_active {
            self.v_was_pressed = true;
            shortcut = ShortcutChange::Unregister;
        }
        if !is_active && self.was_active {
            self.v_was_pressed = false;
            shortcut = ShortcutChange::Register;
        }
        self.was_active = is_active;
        if !is_active {
            return PollDecision { shortcut, emit_cycle: false, outcome: PollOutcome::Idle };
        }
        let emit_cycle = keys.v && !self.v_was_pressed;
        self.v_was_pressed = keys.v;
        let outcome = if keys.escape {
            PollOutcome::Cancel
        } else if !keys.command && !keys.shift {
            PollOutcome::CheckRelease
        } else {
            PollOutcome::Idle
        };
        PollDecision { shortcut, emit_cycle, outcome }
    }
}

/// What to do after the grace period that follows a release.
#[derive(Debug)]
pub enum ReleaseAction {
    /// Paste the item with this id into the previous app.
    Paste(String),
    /// Nothing was selected: hide the window.
    Hide,
    /// Escape came during the grace period: hide without pasting.
    Cancel,
    /// Hotkey mode had already ended.
    Nothing,
}

/// Leaves hotkey mode and drops the selection (Escape).
pub fn cancel_hotkey_mode(mode: &mut HotkeyModeState, selected: &mut SelectedItemState)
    ensures
        !final(mode)@,
        final(selected)@ is None,
{
    mode.exit();
    let _ = selected.take();
}

/// After the grace period: if hotkey mode is still on and Escape is up, leave
/// the mode and paste the selection (or hide when there is none); if Escape is
/// down, leave the mode, drop the selection and hide.
pub fn finish_release(
    mode: &mut HotkeyModeState,
    selected: &mut SelectedItemState,
    escape_after: bool,
) -> (a: ReleaseAction)
    ensures
        !old(mode)@ ==> a is Nothing && final(mode)@ == old(mode)@ && final(selected)@ == old(
            selected,
        )@,
        old(mode)@ ==> !final(mode)@ && final(selected)@ is None,
        old(mode)@ && escape_after ==> a is Cancel,
        old(mode)@ && !escape_after ==> match a {
            ReleaseAction::Paste(id) => old(selected)@ == Some(id@),
            ReleaseAction::Hide => old(selected)@ is None,
            _ => false,
        },
{
    if mode.is_active() && !escape_after {
        mode.exit();
        match selected.take() {
            Some(id) => ReleaseAction::Paste(id),
            None => ReleaseAction::Hide,
        }
    } else if escape_after && mode.is_active() {
        cancel_hotkey_mode(mode, selected);
        ReleaseAction::Cancel
    } else {
        ReleaseAction::Nothing
    }
}

} // verus!
