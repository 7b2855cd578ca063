//! The app that was in front before the history window opened, for pasting
//! back into it.
use vstd::prelude::*;
use crate::database::opt_text;
use crate::text::{chars_of, contains, contains_exec};

verus! {

/// Remembers the bundle id of the previously focused app.
pub struct PreviousAppState {
    bundle_id: Option<String>,
}

impl View for PreviousAppState {
    type V = Option<Seq<char>>;

    closed spec fn view(&self) -> Option<Seq<char>> {
        opt_text(self.bundle_id)
    }
}

impl PreviousAppState {
    /// Nothing remembered yet.
    pub fn new() -> (s: Self)
        ensures
            s@ is None,
    {
        PreviousAppState { bundle_id: None }
    }

    /// Remembers the frontmost app (`frontmost`, as the platform reported it),
    /// unless there is none or its id contains "yoink" (the history window's own).
    pub fn save_previous_app(&mut self, frontmost: Option<String>)
        ensures
            match frontmost {
                Some(app) => if contains(app@, "yoink"@) {
                    final(self)@ == old(self)@
                } else {
                    final(self)@ == Some(app@)
                },
                None => final(self)@ == old(self)@,
            },
    {
        match frontmost {
            Some(app_id) => {
                let own = chars_of("yoink");
                if !contains_exec(&chars_of(app_id.as_str()), &own) {
                    self.bundle_id = Some(app_id);
                }
            },
            None => {},
        }
    }

    /// The remembered bundle id, if any.
    pub fn get_previous_app(&self) -> (r: Option<String>)
        ensures
            opt_text(r) == self@,
    {
        match &self.bundle_id {
            Some(b) => Some(b.clone()),
            None => None,
        }
    }

    /// Forgets the remembered app.
    pub fn clear(&mut self)
        ensures
            final(self)@ is None,
    {
        self.bundle_id = None;
    }
}

} // verus!
