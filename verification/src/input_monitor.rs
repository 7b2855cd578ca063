//! Quick-switch mode: while the hotkey's modifiers stay held, V cycles through
//! the history; releasing a modifier confirms the choice.
use vstd::prelude::*;

verus! {

/// The keys the quick-switch listener tells apart.
#[derive(Clone, Copy, Debug, PartialEq, Eq, Structural)]
pub enum SwitchKey {
    /// Either Command (Meta) key.
    Meta,
    /// Either Shift key.
    Shift,
    /// The V key.
    V,
    /// Any other key.
    Other,
}

/// A keyboard event as the listener reports it.
#[derive(Clone, Copy, Debug, PartialEq, Eq, Structural)]
pub enum SwitchEvent {
    Press(SwitchKey),
    Release(SwitchKey),
    /// Mouse and wheel events.
    Other,
}

/// What the listener emits for an event.
#[derive(Clone, Copy, Debug, PartialEq, Eq, Structural)]
pub enum SwitchSignal {
    Nothing,
    /// "quick-switch-cycle": move to the next item.
    Cycle,
    /// "quick-switch-confirm": take the selected item.
    Confirm,
}

/// Which modifiers the listener believes are held.
#[derive(Clone, Copy, Debug, PartialEq, Eq, Structural)]
pub struct HeldModifiers {
    pub cmd_held: bool,
    pub shift_held: bool,
}

impl HeldModifiers {
    /// Both held: the hotkey was just pressed.
    pub fn at_start() -> (h: Self)
        ensures
            h.cmd_held && h.shift_held,
    {
        HeldModifiers { cmd_held: true, shift_held: true }
    }
}

/// Watches the keyboard while quick-switch mode is on.
pub struct InputMonitor {
    is_active: bool,
    stop_flag: bool,
}

/// The monitor's flags.
pub struct MonitorState {
    pub active: bool,
    pub stopped: bool,
}

impl View for InputMonitor {
    type V = MonitorState;

    closed spec fn view(&self) -> MonitorState {
        MonitorState { active: self.is_active, stopped: self.stop_flag }
    }
}

/// The effect of one event: new modifiers, new active flag, and the signal.
pub open spec fn switch_step(
    active: bool,
    stopped: bool,
    held: HeldModifiers,
    event: SwitchEvent,
) -> (HeldModifiers, bool, SwitchSignal) {
    if stopped {
        (held, active, SwitchSignal::Nothing)
    } else {
        match event {
            SwitchEvent::Press(SwitchKey::Meta) => (
                HeldModifiers { cmd_held: true, ..held },
                active,
                SwitchSignal::Nothing,
            ),
            SwitchEvent::Press(SwitchKey::Shift) => (
                HeldModifiers { shift_held: true, ..held },
                active,
                SwitchSignal::Nothing,
            ),
            SwitchEvent::Press(SwitchKey::V) => (
                held,
                active,
                if held.cmd_held && held.shift_held {
                    SwitchSignal::Cycle
                } else {
                    SwitchSignal::Nothing
                },
            ),
            SwitchEvent::Release(SwitchKey::Meta) => (
                HeldModifiers { cmd_held: false, ..held },
                false,
                SwitchSignal::Confirm,
            ),
            SwitchEvent::Release(SwitchKey::Shift) => (
                HeldModifiers { shift_held: false, ..held },
                false,
                SwitchSignal::Confirm,
            ),
            _ => (held, active, SwitchSignal::Nothing),
        }
    }
}

impl InputMonitor {
    /// Neither active nor stopped.
    pub fn new() -> (m: Self)
        ensures
            !m@.active,
            !m@.stopped,
    {
        InputMonitor { is_active: false, stop_flag: false }
    }

    /// Whether quick-switch mode is on.
    pub fn is_active(&self) -> (r: bool)
        ensures
            r == self@.active,
    {
        self.is_active
    }

    /// Turns quick-switch mode on, unless it is on already; says whether it did.
    pub fn start_quick_switch(&mut self) -> (started: bool)
        ensures
            started == !old(self)@.active,
            started ==> final(self)@.active && !final(self)@.stopped,
            !started ==> final(self)@ == old(self)@,
    {
        if self.is_active {
            return false;
        }
        self.is_active = true;
        self.stop_flag = false;
        true
    }

    /// Stops the listener and turns quick-switch mode off.
    pub fn stop(&mut self)
        ensures
            final(self)@.stopped,
            !final(self)@.active,
    {
        self.stop_flag = true;
        self.is_active = false;
    }

    /// The listener failed: quick-switch mode is off.
    pub fn listener_failed(&mut self)
        ensures
            !final(self)@.active,
            final(self)@.stopped == old(self)@.stopped,
    {
        self.is_active = false;
    }

    /// Handles one keyboard event: a stopped monitor ignores it; a V press with
    /// both modifiers held cycles; releasing either modifier confirms and ends
    /// the mode.
    pub fn handle_event(&mut self, held: &mut HeldModifiers, event: SwitchEvent) -> (signal:
        SwitchSignal)
        ensures
            switch_step(old(self)@.active, old(self)@.stopped, *old(held), event) == (
                *final(held),
                final(self)@.active,
                signal,
            ),
            final(self)@.stopped == old(self)@.stopped,
    {
        if self.stop_flag {
            return SwitchSignal::Nothing;
        }
        match event {
            SwitchEvent::Press(SwitchKey::Meta) => {
                held.cmd_held = true;
                SwitchSignal::Nothing
            },
            SwitchEvent::Press(SwitchKey::Shift) => {
                held.shift_held = true;
                SwitchSignal::Nothing
            },
            SwitchEvent::Press(SwitchKey::V) => {
                if held.cmd_held && held.shift_held {
                    SwitchSignal::Cycle
                } else {
                    SwitchSignal::Nothing
                }
            },
            SwitchEvent::Release(SwitchKey::Meta) => {
                held.cmd_held = false;
                self.is_active = false;
                SwitchSignal::Confirm
            },
            SwitchEvent::Release(SwitchKey::Shift) => {
                held.shift_held = false;
                self.is_active = false;
                SwitchSignal::Confirm
            },
            _ => SwitchSignal::Nothing,
        }
    }
}

} // verus!
