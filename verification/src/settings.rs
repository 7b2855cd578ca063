//! User settings, their defaults, and the edits the settings commands make.
use vstd::prelude::*;

verus! {

/// The user's settings.
#[derive(Debug)]
pub struct Settings {
    pub hotkey: String,
    pub launch_at_startup: bool,
    pub history_limit: u32,
    pub theme: String,
    pub accent_color: String,
    pub font_size: u32,
    pub show_timestamps: bool,
    pub excluded_apps: Vec<String>,
    pub queue_mode_enabled: bool,
    pub auto_paste: bool,
    pub sticky_mode: bool,
}

/// The settings as values.
pub struct SettingsView {
    pub hotkey: Seq<char>,
    pub launch_at_startup: bool,
    pub history_limit: u32,
    pub theme: Seq<char>,
    pub accent_color: Seq<char>,
    pub font_size: u32,
    pub show_timestamps: bool,
    pub excluded_apps: Seq<Seq<char>>,
    pub queue_mode_enabled: bool,
    pub auto_paste: bool,
    pub sticky_mode: bool,
}

/// The views of a sequence of strings.
pub open spec fn texts_view(v: Seq<String>) -> Seq<Seq<char>> {
    v.map_values(|s: String| s@)
}

impl View for Settings {
    type V = SettingsView;

    open spec fn view(&self) -> SettingsView {
        SettingsView {
            hotkey: self.hotkey@,
            launch_at_startup: self.launch_at_startup,
            history_limit: self.history_limit,
            theme: self.theme@,
            accent_color: self.accent_color@,
            font_size: self.font_size,
            show_timestamps: self.show_timestamps,
            excluded_apps: texts_view(self.excluded_apps@),
            queue_mode_enabled: self.queue_mode_enabled,
            auto_paste: self.auto_paste,
            sticky_mode: self.sticky_mode,
        }
    }
}

/// The default hotkey: Command+Shift+V on macOS, Ctrl+Shift+V elsewhere.
pub open spec fn default_hotkey_text(on_macos: bool) -> Seq<char> {
    if on_macos {
        "Command+Shift+V"@
    } else {
        "Ctrl+Shift+V"@
    }
}

/// The settings a new installation starts with.
pub open spec fn default_settings(on_macos: bool) -> SettingsView {
    SettingsView {
        hotkey: default_hotkey_text(on_macos),
        launch_at_startup: false,
        history_limit: 100,
        theme: "system"@,
        accent_color: "blue"@,
        font_size: 14,
        show_timestamps: true,
        excluded_apps: Seq::empty(),
        queue_mode_enabled: false,
        auto_paste: true,
        sticky_mode: false,
    }
}

/// The default hotkey for the platform.
pub fn default_hotkey(on_macos: bool) -> (r: String)
    ensures
        r@ == default_hotkey_text(on_macos),
{
    if on_macos {
        "Command+Shift+V".to_owned()
    } else {
        "Ctrl+Shift+V".to_owned()
    }
}

/// The default history limit.
pub fn default_history_limit() -> (r: u32)
    ensures
        r == 100,
{
    100
}

/// The default theme.
pub fn default_theme() -> (r: String)
    ensures
        r@ == "system"@,
{
    "system".to_owned()
}

/// The default accent colour.
pub fn default_accent() -> (r: String)
    ensures
        r@ == "blue"@,
{
    "blue".to_owned()
}

/// The default font size.
pub fn default_font_size() -> (r: u32)
    ensures
        r == 14,
{
    14
}

/// The default of the flags that start switched on.
pub fn default_true() -> (r: bool)
    ensures
        r,
{
    true
}

/// A copy of a list of strings.
fn clone_texts(v: &Vec<String>) -> (r: Vec<String>)
    ensures
        r@ == v@,
{
    let mut out: Vec<String> = Vec::new();
    for k in 0..v.len()
        invariant
            out@ == v@.take(k as int),
    {
        out.push(v[k].clone());
        assert(out@ =~= v@.take(k + 1));
    }
    assert(v@.take(v@.len() as int) =~= v@);
    out
}

impl Settings {
    /// The default settings for the platform.
    pub fn defaults(on_macos: bool) -> (s: Settings)
        ensures
            s@ == default_settings(on_macos),
    {
        let s = Settings {
            hotkey: default_hotkey(on_macos),
            launch_at_startup: false,
            history_limit: default_history_limit(),
            theme: default_theme(),
            accent_color: default_accent(),
            font_size: default_font_size(),
            show_timestamps: default_true(),
            excluded_apps: Vec::new(),
            queue_mode_enabled: false,
            auto_paste: default_true(),
            sticky_mode: false,
        };
        assert(s@.excluded_apps =~= Seq::<Seq<char>>::empty());
        s
    }
}

impl Clone for Settings {
    fn clone(&self) -> (r: Self)
        ensures
            r@ == self@,
    {
        Settings {
            hotkey: self.hotkey.clone(),
            launch_at_startup: self.launch_at_startup,
            history_limit: self.history_limit,
            theme: self.theme.clone(),
            accent_color: self.accent_color.clone(),
            font_size: self.font_size,
            show_timestamps: self.show_timestamps,
            excluded_apps: clone_texts(&self.excluded_apps),
            queue_mode_enabled: self.queue_mode_enabled,
            auto_paste: self.auto_paste,
            sticky_mode: self.sticky_mode,
        }
    }
}

/// The apps without every occurrence of `app`.
pub open spec fn apps_without(apps: Seq<Seq<char>>, app: Seq<char>) -> Seq<Seq<char>> {
    apps.filter(|a: Seq<char>| a != app)
}

/// The apps with `app` added at the end unless it is listed already.
pub open spec fn apps_with(apps: Seq<Seq<char>>, app: Seq<char>) -> Seq<Seq<char>> {
    if apps.contains(app) {
        apps
    } else {
        apps.push(app)
    }
}

/// Holds the current settings.
pub struct SettingsManager {
    settings: Settings,
}

impl View for SettingsManager {
    type V = SettingsView;

    closed spec fn view(&self) -> SettingsView {
        self.settings@
    }
}

impl SettingsManager {
    /// A manager holding the given settings.
    pub fn new(settings: Settings) -> (m: Self)
        ensures
            m@ == settings@,
    {
        SettingsManager { settings }
    }

    /// A copy of the current settings.
    pub fn get(&self) -> (s: Settings)
        ensures
            s@ == self@,
    {
        self.settings.clone()
    }

    /// Replaces the settings.
    pub fn update(&mut self, new_settings: Settings) -> (r: Result<(), String>)
        ensures
            r is Ok,
            final(self)@ == new_settings@,
    {
        self.settings = new_settings;
        Ok(())
    }

    /// Sets the hotkey and returns the new settings.
    pub fn set_hotkey(&mut self, hotkey: String) -> (s: Settings)
        ensures
            final(self)@ == (SettingsView { hotkey: hotkey@, ..old(self)@ }),
            s@ == final(self)@,
    {
        self.settings.hotkey = hotkey;
        self.settings.clone()
    }

    /// Sets the theme and returns the new settings.
    pub fn set_theme(&mut self, theme: String) -> (s: Settings)
        ensures
            final(self)@ == (SettingsView { theme: theme@, ..old(self)@ }),
            s@ == final(self)@,
    {
        self.settings.theme = theme;
        self.settings.clone()
    }

    /// Sets the accent colour and returns the new settings.
    pub fn set_accent_color(&mut self, accent_color: String) -> (s: Settings)
        ensures
            final(self)@ == (SettingsView { accent_color: accent_color@, ..old(self)@ }),
            s@ == final(self)@,
    {
        self.settings.accent_color = accent_color;
        self.settings.clone()
    }

    /// Adds an app to the exclusion list unless it is listed already, and
    /// returns the new settings.
    pub fn add_excluded_app(&mut self, app_id: String) -> (s: Settings)
        ensures
            final(self)@ == (SettingsView {
                excluded_apps: apps_with(old(self)@.excluded_apps, app_id@),
                ..old(self)@
            }),
            s@ == final(self)@,
    {
        let ghost apps0 = texts_view(self.settings.excluded_apps@);
        let mut found = false;
        let mut k: usize = 0;
        while k < self.settings.excluded_apps.len()
            invariant
                apps0 == texts_view(self.settings.excluded_apps@),
                k <= apps0.len(),
                found == exists|m: int| 0 <= m < k && apps0[m] == app_id@,
            decreases apps0.len() - k,
        {
            assert(apps0[k as int] == self.settings.excluded_apps@[k as int]@);
            if self.settings.excluded_apps[k] == app_id {
                found = true;
            }
            k = k + 1;
        }
        if !found {
            self.settings.excluded_apps.push(app_id);
            assert(texts_view(self.settings.excluded_apps@) =~= apps0.push(app_id@));
        }
        self.settings.clone()
    }

    /// Removes every occurrence of an app from the exclusion list, and returns
    /// the new settings.
    pub fn remove_excluded_app(&mut self, app_id: String) -> (s: Settings)
        ensures
            final(self)@ == (SettingsView {
                excluded_apps: apps_without(old(self)@.excluded_apps, app_id@),
                ..old(self)@
            }),
            s@ == final(self)@,
    {
        let ghost apps0 = texts_view(self.settings.excluded_apps@);
        let mut kept: Vec<String> = Vec::new();
        let mut k: usize = 0;
        while k < self.settings.excluded_apps.len()
            invariant
                apps0 == texts_view(self.settings.excluded_apps@),
                k <= apps0.len(),
                texts_view(kept@) == apps_without(apps0.take(k as int), app_id@),
            decreases apps0.len() - k,
        {
            proof {
                reveal(Seq::filter);
                assert(apps0.take(k + 1).drop_last() =~= apps0.take(k as int));
                assert(apps0.take(k + 1).last() == apps0[k as int]);
            }
            if self.settings.excluded_apps[k] != app_id {
                let ghost before_push = texts_view(kept@);
                kept.push(self.settings.excluded_apps[k].clone());
                assert(texts_view(kept@) =~= before_push.push(apps0[k as int]));
            }
            k = k + 1;
        }
        assert(apps0.take(k as int) =~= apps0);
        self.settings.excluded_apps = kept;
        self.settings.clone()
    }

    /// Flips queue mode and returns the new settings.
    pub fn toggle_queue_mode(&mut self) -> (s: Settings)
        ensures
            final(self)@ == (SettingsView {
                queue_mode_enabled: !old(self)@.queue_mode_enabled,
                ..old(self)@
            }),
            s@ == final(self)@,
    {
        self.settings.queue_mode_enabled = !self.settings.queue_mode_enabled;
        self.settings.clone()
    }
}

/// Adding an app twice is adding it once, and afterwards it is listed.
pub proof fn lemma_add_app_idempotent(apps: Seq<Seq<char>>, app: Seq<char>)
    ensures
        apps_with(apps, app).contains(app),
        apps_with(apps_with(apps, app), app) == apps_with(apps, app),
{
    if !apps.contains(app) {
        assert(apps.push(app)[apps.len() as int] == app);
    }
}

/// Adding an app to a list without repeats leaves a list without repeats.
pub proof fn lemma_add_app_no_repeats(apps: Seq<Seq<char>>, app: Seq<char>)
    requires
        apps.no_duplicates(),
    ensures
        apps_with(apps, app).no_duplicates(),
{
    if !apps.contains(app) {
        let n = apps.push(app);
        assert forall|i: int, j: int| 0 <= i < n.len() && 0 <= j < n.len() && i != j implies n[i]
            != n[j] by {
            if i < apps.len() && j < apps.len() {
            } else if i < apps.len() {
                assert(apps.contains(n[i]));
            } else {
                assert(apps.contains(n[j]));
            }
        }
    }
}

/// Removing an app leaves it unlisted and keeps every other entry.
pub proof fn lemma_remove_app(apps: Seq<Seq<char>>, app: Seq<char>, other: Seq<char>)
    ensures
        !apps_without(apps, app).contains(app),
        other != app && apps.contains(other) ==> apps_without(apps, app).contains(other),
{
    broadcast use Seq::lemma_filter_pred, Seq::lemma_filter_contains;

    let r = apps_without(apps, app);
    if r.contains(app) {
        let k = choose|k: int| 0 <= k < r.len() && r[k] == app;
        assert(r[k] != app);
    }
    if other != app && apps.contains(other) {
        let k = choose|k: int| 0 <= k < apps.len() && apps[k] == other;
        assert(r.contains(apps[k]));
    }
}

/// Toggling queue mode twice restores the settings.
pub proof fn lemma_toggle_twice(v: SettingsView)
    ensures
        (SettingsView {
            queue_mode_enabled: !(SettingsView {
                queue_mode_enabled: !v.queue_mode_enabled,
                ..v
            }).queue_mode_enabled,
            ..(SettingsView { queue_mode_enabled: !v.queue_mode_enabled, ..v })
        }) == v,
{
}

} // verus!
