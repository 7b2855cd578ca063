//! Whether the app in front is one the user excluded from capture.
use vstd::prelude::*;
use crate::settings::SettingsManager;
use crate::text::{chars_of, contains, contains_exec, to_lowercase, unicode_lowercase};

verus! {

/// Some excluded entry, lower-cased, occurs in the lower-cased app id.
pub open spec fn excluded_by(apps: Seq<Seq<char>>, app_id: Seq<char>) -> bool {
    exists|i: int|
        0 <= i < apps.len() && contains(
            unicode_lowercase(app_id),
            unicode_lowercase(#[trigger] apps[i]),
        )
}

/// Whether capture is off for the frontmost app (`frontmost`, as the platform
/// reported it): some excluded entry occurs in its id, ignoring case.
pub fn is_app_excluded(settings_manager: &SettingsManager, frontmost: Option<String>) -> (r: bool)
    ensures
        r == (settings_manager@.excluded_apps.len() > 0 && (frontmost matches Some(app)
            && excluded_by(settings_manager@.excluded_apps, app@))),
{
    let settings = settings_manager.get();
    let ghost apps = settings_manager@.excluded_apps;
    assert(apps == crate::settings::texts_view(settings.excluded_apps@));
    assert(apps.len() == settings.excluded_apps@.len());
    if settings.excluded_apps.len() == 0 {
        return false;
    }
    match frontmost {
        Some(app_id) => {
            let app_lower = chars_of(to_lowercase(app_id.as_str()).as_str());
            let mut k: usize = 0;
            while k < settings.excluded_apps.len()
                invariant
                    apps == crate::settings::texts_view(settings.excluded_apps@),
                    apps == settings_manager@.excluded_apps,
                    apps.len() > 0,
                    frontmost == Some(app_id),
                    app_lower@ == unicode_lowercase(app_id@),
                    k <= apps.len(),
                    forall|m: int|
                        0 <= m < k ==> !contains(
                            unicode_lowercase(app_id@),
                            unicode_lowercase(#[trigger] apps[m]),
                        ),
                decreases apps.len() - k,
            {
                assert(apps[k as int] == settings.excluded_apps@[k as int]@);
                let entry = chars_of(to_lowercase(settings.excluded_apps[k].as_str()).as_str());
                if contains_exec(&app_lower, &entry) {
                    assert(excluded_by(apps, app_id@));
                    return true;
                }
                k = k + 1;
            }
            assert(!excluded_by(apps, app_id@));
            false
        },
        None => {
            assert(!(frontmost matches Some(app) && excluded_by(apps, app@)));
            false
        },
    }
}

/// An app is excluded as soon as one entry, lower-cased, occurs in its
/// lower-cased id, whatever the other entries are.
pub proof fn lemma_one_entry_excludes(apps: Seq<Seq<char>>, app_id: Seq<char>, i: int)
    requires
        0 <= i < apps.len(),
        contains(unicode_lowercase(app_id), unicode_lowercase(apps[i])),
    ensures
        excluded_by(apps, app_id),
{
}

/// An app is excluded only when some entry, lower-cased, occurs in its
/// lower-cased id: with no such entry it is not.
pub proof fn lemma_no_entry_no_exclusion(apps: Seq<Seq<char>>, app_id: Seq<char>)
    requires
        forall|i: int|
            0 <= i < apps.len() ==> !contains(
                unicode_lowercase(app_id),
                unicode_lowercase(#[trigger] apps[i]),
            ),
    ensures
        !excluded_by(apps, app_id),
{
}

/// An empty list excludes nothing, and adding entries never lets an excluded
/// app back in.
pub proof fn lemma_more_entries_exclude_more(
    apps: Seq<Seq<char>>,
    more: Seq<Seq<char>>,
    app_id: Seq<char>,
)
    ensures
        !excluded_by(Seq::<Seq<char>>::empty(), app_id),
        excluded_by(apps, app_id) ==> excluded_by(apps + more, app_id),
{
    if excluded_by(apps, app_id) {
        let i = choose|i: int|
            0 <= i < apps.len() && contains(
                unicode_lowercase(app_id),
                unicode_lowercase(#[trigger] apps[i]),
            );
        assert((apps + more)[i] == apps[i]);
    }
}

} // verus!
