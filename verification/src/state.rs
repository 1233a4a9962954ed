//! Settings, launcher profiles, and the manager's state with its transitions.
use vstd::prelude::*;
use crate::manifest::{find_key, keys_unique, lookup};
use crate::mods::ModEntry;
use crate::dates::push_str;
use crate::text::{
    decimal_digits, join_spec, join_strings, pad_decimal, same_text, starts_with_str,
};

verus! {

/// A JSON value of the launcher's profile file, carried through unchanged.
#[verifier::external_type_specification]
#[verifier::external_body]
pub struct ExJsonValue(serde_json::Value);

/// The manager's settings.
#[derive(Clone, Debug)]
pub struct AppConfig {
    pub custom_launcher_path: String,
    pub logging_enabled: bool,
    pub custom_bedrock_path: String,
}

/// Logging is on unless the settings say otherwise.
pub fn default_logging_enabled() -> (b: bool)
    ensures
        b,
{
    true
}

impl Default for AppConfig {
    /// No custom paths, logging on.
    fn default() -> (res: Self)
        ensures
            res.custom_launcher_path@.len() == 0,
            res.logging_enabled,
            res.custom_bedrock_path@.len() == 0,
    {
        AppConfig {
            custom_launcher_path: String::new(),
            logging_enabled: default_logging_enabled(),
            custom_bedrock_path: String::new(),
        }
    }
}

/// A profile of the Minecraft Launcher, under the names its file uses.
#[allow(non_snake_case)]
#[derive(Debug)]
pub struct LauncherProfile {
    pub name: String,
    pub profile_type: serde_json::Value,
    pub gameDir: Option<String>,
    pub lastVersionId: Option<String>,
    pub javaArgs: Option<String>,
    pub javaDir: Option<String>,
    pub icon: Option<String>,
}

/// The launcher's profiles, by key, and the selected one.
#[allow(non_snake_case)]
#[derive(Debug)]
pub struct LauncherProfiles {
    pub profiles: Vec<(String, LauncherProfile)>,
    pub selectedProfile: Option<String>,
}

/// The launcher's own pseudo-profiles, which the manager does not list.
pub open spec fn is_reserved_profile(key: Seq<char>) -> bool {
    key == "latest-release"@ || key == "latest-snapshot"@
}

/// The entries whose key is not reserved, in order.
pub open spec fn unreserved(entries: Seq<(String, LauncherProfile)>) -> Seq<(String, LauncherProfile)>
    decreases entries.len(),
{
    if entries.len() == 0 {
        Seq::empty()
    } else {
        let rest = unreserved(entries.drop_last());
        if is_reserved_profile(entries.last().0@) {
            rest
        } else {
            rest.push(entries.last())
        }
    }
}

proof fn lemma_unreserved_from(entries: Seq<(String, LauncherProfile)>, k: int)
    requires
        0 <= k < unreserved(entries).len(),
    ensures
        exists|j: int| 0 <= j < entries.len() && entries[j] == unreserved(entries)[k],
    decreases entries.len(),
{
    let rest = unreserved(entries.drop_last());
    if k < rest.len() {
        lemma_unreserved_from(entries.drop_last(), k);
        let j = choose|j: int| 0 <= j < entries.drop_last().len() && entries.drop_last()[j] == rest[k];
        assert(entries[j] == rest[k]);
    } else {
        assert(entries[entries.len() - 1] == unreserved(entries)[k]);
    }
}

/// Dropping the reserved profiles keeps keys unique.
proof fn lemma_unreserved_keys_unique(entries: Seq<(String, LauncherProfile)>)
    ensures
        keys_unique(entries) ==> keys_unique(unreserved(entries)),
    decreases entries.len(),
{
    if entries.len() > 0 && keys_unique(entries) {
        let init = entries.drop_last();
        assert(keys_unique(init));
        lemma_unreserved_keys_unique(init);
        let rest = unreserved(init);
        let out = unreserved(entries);
        assert forall|a: int, b: int| 0 <= a < b < out.len() implies #[trigger] out[a].0@
            != #[trigger] out[b].0@ by {
            if b >= rest.len() {
                assert(out[a] == rest[a]);
                lemma_unreserved_from(init, a);
                let j = choose|j: int| 0 <= j < init.len() && init[j] == rest[a];
                assert(entries[j] == init[j]);
                assert(out[b] == entries[entries.len() - 1]);
            } else {
                assert(out[a] == rest[a] && out[b] == rest[b]);
            }
        }
    }
}

/// The profiles without the launcher's `latest-release` and `latest-snapshot`.
pub fn without_reserved_profiles(profiles: LauncherProfiles) -> (res: LauncherProfiles)
    ensures
        res.profiles@ == unreserved(profiles.profiles@),
        res.selectedProfile == profiles.selectedProfile,
        keys_unique(profiles.profiles@) ==> keys_unique(res.profiles@),
{
    proof {
        lemma_unreserved_keys_unique(profiles.profiles@);
    }
    let LauncherProfiles { profiles: mut entries, selectedProfile } = profiles;
    let ghost orig = entries@;
    let ghost mut taken: Seq<(String, LauncherProfile)> = Seq::empty();
    let mut kept: Vec<(String, LauncherProfile)> = Vec::new();
    while entries.len() > 0
        invariant
            orig == taken + entries@,
            kept@ == unreserved(taken),
        decreases entries.len(),
    {
        let e = entries.remove(0);
        proof {
            assert(taken.push(e) + entries@ =~= orig);
            assert(taken.push(e).drop_last() =~= taken);
        }
        let reserved = same_text(e.0.as_str(), "latest-release") || same_text(
            e.0.as_str(),
            "latest-snapshot",
        );
        proof {
            reveal_strlit("latest-release");
            reveal_strlit("latest-snapshot");
            taken = taken.push(e);
        }
        if !reserved {
            kept.push(e);
        }
    }
    assert(taken =~= orig);
    LauncherProfiles { profiles: kept, selectedProfile }
}

/// The manager's tabs.
#[derive(Clone, Copy, Debug, PartialEq, Eq, Structural)]
pub enum Tab {
    Mods,
    Profiles,
    Launcher,
    AppData,
}

/// What the open confirmation dialog would delete.
#[derive(Clone, Copy, Debug, PartialEq, Eq, Structural)]
pub enum ConfirmAction {
    DeleteSelected,
    ClearAll,
}

/// The state of the manager window: the mods list and its selection, the launcher profiles
/// being edited, the launcher settings and the messages on show.
#[derive(Debug)]
pub struct ModManagerApp {
    pub current_tab: Tab,
    pub dark_mode: bool,
    pub show_settings: bool,
    pub mods: Vec<ModEntry>,
    pub selected_mods: Vec<String>,
    pub mods_error: Option<String>,
    pub delete_status: Option<String>,
    pub profiles: LauncherProfiles,
    pub profiles_error: Option<String>,
    pub profiles_saved: Option<String>,
    pub selected_profile_key: Option<String>,
    pub detected_launcher_path: Option<String>,
    pub custom_launcher_path: String,
    pub launch_status: Option<String>,
    pub launch_error: Option<String>,
    pub minecraft_path: String,
    pub mods_path: String,
    pub show_confirm: bool,
    pub confirm_action: Option<ConfirmAction>,
    pub backup_enabled: bool,
    pub last_backup: Option<String>,
    pub profile_launch_status: Option<String>,
    pub clear_backups_result: Option<String>,
    pub logging_enabled: bool,
}

/// Whether `name` is among the names in `names`.
pub open spec fn has_name(names: Seq<String>, name: Seq<char>) -> bool {
    exists|i: int| 0 <= i < names.len() && names[i]@ == name
}

/// Whether a mod called `name` is in `mods`.
pub open spec fn lists_mod(mods: Seq<ModEntry>, name: Seq<char>) -> bool {
    exists|i: int| 0 <= i < mods.len() && mods[i].name@ == name
}

/// The names in `names` that satisfy `keep`, in order.
pub open spec fn names_where(names: Seq<String>, keep: spec_fn(Seq<char>) -> bool) -> Seq<String> {
    names.filter(|s: String| keep(s@))
}

/// The selected names that name a mod of `mods`, in order.
pub open spec fn still_listed(selected: Seq<String>, mods: Seq<ModEntry>) -> Seq<String> {
    names_where(selected, |n: Seq<char>| lists_mod(mods, n))
}

/// The text of a message that may be on show.
pub open spec fn message(m: Option<String>) -> Option<Seq<char>> {
    match m {
        Some(s) => Some(s@),
        None => None,
    }
}

/// No name occurs twice, as in a set.
pub open spec fn names_unique(names: Seq<String>) -> bool {
    forall|i: int, j: int| 0 <= i < j < names.len() ==> #[trigger] names[i]@ != #[trigger] names[j]@
}

/// Keeping some of the names keeps them unique.
pub proof fn lemma_names_where_unique(names: Seq<String>, keep: spec_fn(Seq<char>) -> bool)
    ensures
        names_unique(names) ==> names_unique(names_where(names, keep)),
    decreases names.len(),
{
    reveal(Seq::filter);
    if names.len() > 0 && names_unique(names) {
        let init = names.drop_last();
        assert(names_unique(init));
        lemma_names_where_unique(init, keep);
        lemma_names_where(init, keep);
        let rest = names_where(init, keep);
        let out = names_where(names, keep);
        assert forall|a: int, b: int| 0 <= a < b < out.len() implies #[trigger] out[a]@
            != #[trigger] out[b]@ by {
            if b >= rest.len() {
                assert(out[a] == rest[a]);
                assert(has_name(rest, rest[a]@));
                assert(has_name(init, rest[a]@));
                let j = choose|j: int| 0 <= j < init.len() && init[j]@ == rest[a]@;
                assert(names[j] == init[j]);
                assert(out[b] == names[names.len() - 1]);
            } else {
                assert(out[a] == rest[a] && out[b] == rest[b]);
            }
        }
    }
}

/// A name is among the kept names exactly when it is among the names and passes `keep`.
pub proof fn lemma_names_where(names: Seq<String>, keep: spec_fn(Seq<char>) -> bool)
    ensures
        forall|n: Seq<char>|
            #[trigger] has_name(names_where(names, keep), n) <==> (has_name(names, n) && keep(n)),
    decreases names.len(),
{
    reveal(Seq::filter);
    if names.len() > 0 {
        let rest = names.drop_last();
        lemma_names_where(rest, keep);
        let kept = names_where(names, keep);
        let kept_rest = names_where(rest, keep);
        assert forall|n: Seq<char>|
            #[trigger] has_name(kept, n) <==> (has_name(names, n) && keep(n)) by {
            if has_name(kept, n) {
                let i = choose|i: int| 0 <= i < kept.len() && kept[i]@ == n;
                if i < kept_rest.len() {
                    assert(kept_rest[i]@ == n);
                    assert(has_name(kept_rest, n));
                    let j = choose|j: int| 0 <= j < rest.len() && rest[j]@ == n;
                    assert(names[j]@ == n);
                } else {
                    assert(names[names.len() - 1]@ == n);
                }
            }
            if has_name(names, n) && keep(n) {
                let j = choose|j: int| 0 <= j < names.len() && names[j]@ == n;
                if j < rest.len() {
                    assert(rest[j]@ == n);
                    assert(has_name(rest, n));
                    assert(has_name(kept_rest, n));
                    let i = choose|i: int| 0 <= i < kept_rest.len() && kept_rest[i]@ == n;
                    assert(kept[i]@ == n);
                } else {
                    assert(kept[kept.len() - 1]@ == n);
                }
            }
        }
    }
}

/// After a refresh, a name is selected exactly when it was selected before and a mod of that
/// name is listed: the selection never names a mod that is not in the list.
pub proof fn lemma_refresh_keeps_listed_selection(selected: Seq<String>, mods: Seq<ModEntry>)
    ensures
        forall|n: Seq<char>|
            #[trigger] has_name(still_listed(selected, mods), n) <==> (has_name(selected, n)
                && lists_mod(mods, n)),
{
    lemma_names_where(selected, |n: Seq<char>| lists_mod(mods, n));
}

/// Whether some profile entry has key `key`.
pub open spec fn has_profile_key(entries: Seq<(String, LauncherProfile)>, key: Seq<char>) -> bool {
    exists|i: int| 0 <= i < entries.len() && entries[i].0@ == key
}

/// The profile key selected after a reload: the one selected before if it is still there,
/// else the first key, if any.
pub open spec fn reselected_key(
    before: Option<String>,
    entries: Seq<(String, LauncherProfile)>,
) -> Option<Seq<char>> {
    if before is Some && has_profile_key(entries, before->0@) {
        Some(before->0@)
    } else if entries.len() > 0 {
        Some(entries[0].0@)
    } else {
        None
    }
}

/// After a reload the selected key, if any, is a key of the reloaded profiles, and one is
/// selected whenever there is a profile at all.
pub proof fn lemma_reselected_key_is_listed(
    before: Option<String>,
    entries: Seq<(String, LauncherProfile)>,
)
    ensures
        reselected_key(before, entries) is Some <==> entries.len() > 0,
        reselected_key(before, entries) is Some ==> has_profile_key(
            entries,
            reselected_key(before, entries)->0,
        ),
{
    if before is Some && has_profile_key(entries, before->0@) {
    } else if entries.len() > 0 {
        assert(entries[0].0@ == entries[0].0@);
    }
}

/// What the profile list shows for the profile under `key`: its name, or the key when the
/// name is empty or there is no such profile.
pub open spec fn profile_label_spec(key: Seq<char>, profile: Option<LauncherProfile>) -> Seq<char> {
    match profile {
        Some(p) => if p.name@.len() > 0 {
            p.name@
        } else {
            key
        },
        None => key,
    }
}

proof fn lemma_lookup_absent(entries: Seq<(String, LauncherProfile)>, key: Seq<char>)
    ensures
        lookup(entries, key) is None <==> !has_profile_key(entries, key),
    decreases entries.len(),
{
    if entries.len() > 0 {
        lemma_lookup_absent(entries.skip(1), key);
        if has_profile_key(entries.skip(1), key) {
            let i = choose|i: int| 0 <= i < entries.skip(1).len() && entries.skip(1)[i].0@ == key;
            assert(entries[i + 1].0@ == key);
        }
        if has_profile_key(entries, key) && entries[0].0@ != key {
            let i = choose|i: int| 0 <= i < entries.len() && entries[i].0@ == key;
            assert(entries.skip(1)[i - 1].0@ == key);
        }
    }
}

proof fn lemma_lookup_replace(
    entries: Seq<(String, LauncherProfile)>,
    i: int,
    edited: LauncherProfile,
    key: Seq<char>,
    other: Seq<char>,
)
    requires
        0 <= i < entries.len(),
        entries[i].0@ == key,
        forall|j: int| 0 <= j < i ==> entries[j].0@ != key,
    ensures
        lookup(entries.update(i, (entries[i].0, edited)), key) == Some(edited),
        other != key ==> lookup(entries.update(i, (entries[i].0, edited)), other) == lookup(
            entries,
            other,
        ),
    decreases i,
{
    let updated = entries.update(i, (entries[i].0, edited));
    if i > 0 {
        lemma_lookup_replace(entries.skip(1), i - 1, edited, key, other);
        assert(updated.skip(1) =~= entries.skip(1).update(i - 1, (entries[i].0, edited)));
        assert(updated[0] == entries[0]);
    } else {
        assert(updated.skip(1) =~= entries.skip(1));
    }
}

proof fn lemma_lookup_append(
    entries: Seq<(String, LauncherProfile)>,
    entry: (String, LauncherProfile),
    other: Seq<char>,
)
    requires
        !has_profile_key(entries, entry.0@),
    ensures
        lookup(entries.push(entry), entry.0@) == Some(entry.1),
        other != entry.0@ ==> lookup(entries.push(entry), other) == lookup(entries, other),
    decreases entries.len(),
{
    if entries.len() > 0 {
        assert(entries.push(entry)[0] == entries[0]);
        assert(entries.push(entry).skip(1) =~= entries.skip(1).push(entry));
        if has_profile_key(entries.skip(1), entry.0@) {
            let i = choose|i: int|
                0 <= i < entries.skip(1).len() && entries.skip(1)[i].0@ == entry.0@;
            assert(entries[i + 1].0@ == entry.0@);
        }
        lemma_lookup_append(entries.skip(1), entry, other);
    } else {
        let empty = Seq::<(String, LauncherProfile)>::empty();
        assert(entries =~= empty);
        assert(entries.push(entry).skip(1) =~= empty);
        assert(lookup(empty, other) is None);
    }
}

/// Whether the mod at index `i` would go under `action`.
pub open spec fn targeted(
    mods: Seq<ModEntry>,
    selected: Seq<String>,
    action: Option<ConfirmAction>,
    i: int,
) -> bool {
    match action {
        Some(ConfirmAction::DeleteSelected) => has_name(selected, mods[i].name@),
        Some(ConfirmAction::ClearAll) => true,
        None => false,
    }
}

/// The indices below `n` of the mods that would go under `action`, in list order.
pub open spec fn target_indices(
    mods: Seq<ModEntry>,
    selected: Seq<String>,
    action: Option<ConfirmAction>,
    n: nat,
) -> Seq<usize>
    decreases n,
{
    if n == 0 {
        Seq::empty()
    } else {
        let rest = target_indices(mods, selected, action, (n - 1) as nat);
        if targeted(mods, selected, action, n - 1) {
            rest.push((n - 1) as usize)
        } else {
            rest
        }
    }
}

/// The indices of the mods the confirmation dialog is about, in list order.
pub open spec fn deletion_targets(app: ModManagerApp) -> Seq<usize> {
    target_indices(app.mods@, app.selected_mods@, app.confirm_action, app.mods@.len())
}

/// The target indices below `n` are increasing, each is targeted, and each targeted index
/// below `n` is among them: the dialog lists exactly the mods that the action deletes.
pub proof fn lemma_target_indices(
    mods: Seq<ModEntry>,
    selected: Seq<String>,
    action: Option<ConfirmAction>,
    n: nat,
)
    requires
        n <= mods.len() <= usize::MAX,
    ensures
        forall|k: int|
            0 <= k < target_indices(mods, selected, action, n).len() ==> {
                let i = #[trigger] target_indices(mods, selected, action, n)[k];
                i < n && targeted(mods, selected, action, i as int)
            },
        forall|k1: int, k2: int|
            0 <= k1 < k2 < target_indices(mods, selected, action, n).len() ==> target_indices(
                mods,
                selected,
                action,
                n,
            )[k1] < target_indices(mods, selected, action, n)[k2],
        forall|i: int|
            0 <= i < n && targeted(mods, selected, action, i) ==> target_indices(
                mods,
                selected,
                action,
                n,
            ).contains(i as usize),
    decreases n,
{
    if n > 0 {
        lemma_target_indices(mods, selected, action, (n - 1) as nat);
        let rest = target_indices(mods, selected, action, (n - 1) as nat);
        let all = target_indices(mods, selected, action, n);
        assert forall|i: int| 0 <= i < n && targeted(mods, selected, action, i) implies all.contains(
            i as usize,
        ) by {
            if i < n - 1 {
                let k = choose|k: int| 0 <= k < rest.len() && rest[k] == i as usize;
                assert(all[k] == i as usize);
            } else {
                assert(all[all.len() - 1] == i as usize);
            }
        }
    }
}

/// The text listing failed deletions: `name: error` for each, joined by `; `.
pub open spec fn failure_text(failures: Seq<(String, String)>) -> Seq<char> {
    join_spec(failures.map_values(|f: (String, String)| f.0@ + ": "@ + f.1@), "; "@)
}

/// The message after a deletion of `count` mods, of which `failures` failed.
pub open spec fn deletion_message(count: nat, failures: Seq<(String, String)>, backed_up: bool) -> Seq<
    char,
> {
    if failures.len() == 0 {
        "Deleted "@ + decimal_digits(count) + " mod(s)."@ + if backed_up {
            " Backed up before deletion."@
        } else {
            ""@
        }
    } else {
        "Deleted "@ + decimal_digits((count - failures.len()) as nat) + " of "@ + decimal_digits(count)
            + " mod(s). Errors: "@ + failure_text(failures)
    }
}

/// The question the confirmation dialog asks about `n` mods.
pub open spec fn confirm_question(action: Option<ConfirmAction>, n: nat) -> Seq<char> {
    match action {
        Some(ConfirmAction::DeleteSelected) => "Delete "@ + decimal_digits(n) + " selected mod(s)?"@,
        Some(ConfirmAction::ClearAll) => "Delete all "@ + decimal_digits(n) + " mod(s)?"@,
        None => ""@,
    }
}

/// The launcher the manager starts: the custom path when one is set, else the detected one,
/// else nothing (the empty path).
pub open spec fn launcher_path_spec(custom: Seq<char>, detected: Option<String>) -> Seq<char> {
    if custom.len() > 0 {
        custom
    } else {
        match detected {
            Some(d) => d@,
            None => ""@,
        }
    }
}

/// `true` or `false`, as `format!("{}", b)` writes it.
pub open spec fn bool_text(b: bool) -> Seq<char> {
    if b {
        "true"@
    } else {
        "false"@
    }
}

/// The lines of the settings window's debug section.
pub open spec fn debug_lines(app: ModManagerApp, backups: Seq<char>) -> Seq<Seq<char>> {
    seq![
        "Version: Release v1.0"@,
        "Dark Mode: "@ + bool_text(app.dark_mode),
        "Profiles: "@ + decimal_digits(app.profiles.profiles@.len()),
        "Mods: "@ + decimal_digits(app.mods@.len()),
        "Minecraft: "@ + app.minecraft_path@,
        "Mods Dir: "@ + app.mods_path@,
        "Backups: "@ + backups,
        "Launcher: "@ + launcher_path_spec(app.custom_launcher_path@, app.detected_launcher_path),
        "Selected Profile: "@ + match app.selected_profile_key {
            Some(k) => k@,
            None => "none"@,
        },
    ]
}

fn has_name_exec(names: &Vec<String>, name: &str) -> (b: bool)
    ensures
        b == has_name(names@, name@),
{
    let mut i: usize = 0;
    while i < names.len()
        invariant
            i <= names.len(),
            forall|j: int| 0 <= j < i ==> names@[j]@ != name@,
        decreases names.len() - i,
    {
        if same_text(names[i].as_str(), name) {
            return true;
        }
        i = i + 1;
    }
    false
}

fn lists_mod_exec(mods: &Vec<ModEntry>, name: &str) -> (b: bool)
    ensures
        b == lists_mod(mods@, name@),
{
    let mut i: usize = 0;
    while i < mods.len()
        invariant
            i <= mods.len(),
            forall|j: int| 0 <= j < i ==> mods@[j].name@ != name@,
        decreases mods.len() - i,
    {
        if same_text(mods[i].name.as_str(), name) {
            return true;
        }
        i = i + 1;
    }
    false
}

fn text_message(prefix: &str, detail: &str) -> (res: String)
    ensures
        res@ == prefix@ + detail@,
{
    let mut res = String::from_str(prefix);
    push_str(&mut res, detail);
    res
}

impl ModManagerApp {
    /// The state the window opens with: the mods tab, dark theme, nothing listed or
    /// selected yet, backups on, and the launcher settings from `config`.
    pub fn new(
        minecraft_path: String,
        mods_path: String,
        detected_launcher_path: Option<String>,
        config: AppConfig,
    ) -> (app: Self)
        ensures
            app == (ModManagerApp {
                current_tab: Tab::Mods,
                dark_mode: true,
                show_settings: false,
                mods: app.mods,
                selected_mods: app.selected_mods,
                mods_error: None,
                delete_status: None,
                profiles: app.profiles,
                profiles_error: None,
                profiles_saved: None,
                selected_profile_key: None,
                detected_launcher_path,
                custom_launcher_path: config.custom_launcher_path,
                launch_status: None,
                launch_error: None,
                minecraft_path,
                mods_path,
                show_confirm: false,
                confirm_action: None,
                backup_enabled: true,
                last_backup: None,
                profile_launch_status: None,
                clear_backups_result: None,
                logging_enabled: config.logging_enabled,
            }),
            app.mods@.len() == 0,
            app.selected_mods@.len() == 0,
            app.profiles.profiles@.len() == 0,
            app.profiles.selectedProfile is None,
    {
        ModManagerApp {
            current_tab: Tab::Mods,
            dark_mode: true,
            show_settings: false,
            mods: Vec::new(),
            selected_mods: Vec::new(),
            mods_error: None,
            delete_status: None,
            profiles: LauncherProfiles { profiles: Vec::new(), selectedProfile: None },
            profiles_error: None,
            profiles_saved: None,
            selected_profile_key: None,
            detected_launcher_path,
            custom_launcher_path: config.custom_launcher_path,
            launch_status: None,
            launch_error: None,
            minecraft_path,
            mods_path,
            show_confirm: false,
            confirm_action: None,
            backup_enabled: true,
            last_backup: None,
            profile_launch_status: None,
            clear_backups_result: None,
            logging_enabled: config.logging_enabled,
        }
    }

    /// Takes in a new listing of the mods folder. On a listing the selection keeps only the
    /// names still listed; on a failure the list is emptied and the error shown.
    pub fn refresh_mods(&mut self, listing: Result<Vec<ModEntry>, String>)
        ensures
            match listing {
                Ok(m) => {
                    &&& *final(self) == (ModManagerApp {
                        mods: m,
                        selected_mods: final(self).selected_mods,
                        mods_error: None,
                        ..*old(self)
                    })
                    &&& final(self).selected_mods@ == still_listed(old(self).selected_mods@, m@)
                    &&& names_unique(old(self).selected_mods@) ==> names_unique(
                        final(self).selected_mods@,
                    )
                },
                Err(e) => {
                    &&& *final(self) == (ModManagerApp {
                        mods: final(self).mods,
                        mods_error: final(self).mods_error,
                        ..*old(self)
                    })
                    &&& final(self).mods@.len() == 0
                    &&& message(final(self).mods_error) == Some("Failed to list mods: "@ + e@)
                },
            },
    {
        self.mods_error = None;
        match listing {
            Ok(m) => {
                let ghost sel = self.selected_mods@;
                let ghost keep = |n: Seq<char>| lists_mod(m@, n);
                let mut kept: Vec<String> = Vec::new();
                let mut i: usize = 0;
                proof {
                    reveal(Seq::filter);
                }
                while i < self.selected_mods.len()
                    invariant
                        i <= self.selected_mods.len(),
                        sel == self.selected_mods@,
                        keep == (|n: Seq<char>| lists_mod(m@, n)),
                        kept@ == names_where(sel.take(i as int), keep),
                    decreases self.selected_mods.len() - i,
                {
                    proof {
                        reveal(Seq::filter);
                        assert(sel.take(i + 1).drop_last() =~= sel.take(i as int));
                    }
                    if lists_mod_exec(&m, self.selected_mods[i].as_str()) {
                        kept.push(self.selected_mods[i].clone());
                    }
                    i = i + 1;
                }
                assert(sel.take(i as int) =~= sel);
                proof {
                    lemma_names_where_unique(sel, keep);
                }
                self.mods = m;
                self.selected_mods = kept;
            },
            Err(e) => {
                proof {
                    reveal_strlit("Failed to list mods: ");
                }
                self.mods_error = Some(text_message("Failed to list mods: ", e.as_str()));
                self.mods = Vec::new();
            },
        }
    }

    /// Takes in a new reading of the launcher's profiles. The selected key stays if the
    /// profile is still there, else the first profile is selected; a failure is shown.
    pub fn refresh_profiles(&mut self, read: Result<LauncherProfiles, String>)
        ensures
            match read {
                Ok(p) => {
                    &&& *final(self) == (ModManagerApp {
                        profiles: p,
                        profiles_error: None,
                        selected_profile_key: final(self).selected_profile_key,
                        ..*old(self)
                    })
                    &&& message(final(self).selected_profile_key) == reselected_key(
                        old(self).selected_profile_key,
                        p.profiles@,
                    )
                },
                Err(e) => *final(self) == (ModManagerApp {
                    profiles_error: Some(e),
                    ..*old(self)
                }),
            },
    {
        self.profiles_error = None;
        match read {
            Ok(p) => {
                let keep = match &self.selected_profile_key {
                    Some(k) => match find_key(&p.profiles, k.as_str()) {
                        Some(_) => true,
                        None => false,
                    },
                    None => false,
                };
                proof {
                    if self.selected_profile_key is Some {
                        lemma_lookup_absent(p.profiles@, self.selected_profile_key->0@);
                    }
                }
                if !keep {
                    if p.profiles.len() > 0 {
                        self.selected_profile_key = Some(p.profiles[0].0.clone());
                    } else {
                        self.selected_profile_key = None;
                    }
                }
                self.profiles = p;
            },
            Err(e) => {
                self.profiles_error = Some(e);
            },
        }
    }

    /// Puts `edited` in place as the profile under `key`, adding it if there is none.
    pub fn update_profile(&mut self, key: &str, edited: LauncherProfile)
        ensures
            *final(self) == (ModManagerApp { profiles: final(self).profiles, ..*old(self) }),
            final(self).profiles.selectedProfile == old(self).profiles.selectedProfile,
            lookup(final(self).profiles.profiles@, key@) == Some(edited),
            keys_unique(old(self).profiles.profiles@) ==> keys_unique(final(self).profiles.profiles@),
            forall|k: Seq<char>|
                k != key@ ==> #[trigger] lookup(final(self).profiles.profiles@, k) == lookup(
                    old(self).profiles.profiles@,
                    k,
                ),
    {
        let ghost before = self.profiles.profiles@;
        let mut i: usize = 0;
        while i < self.profiles.profiles.len()
            invariant
                i <= self.profiles.profiles.len(),
                *self == *old(self),
                self.profiles.profiles@ == before,
                forall|j: int| 0 <= j < i ==> before[j].0@ != key@,
            decreases self.profiles.profiles.len() - i,
        {
            if same_text(self.profiles.profiles[i].0.as_str(), key) {
                let (k, _previous) = self.profiles.profiles.remove(i);
                let ghost entry_key = k;
                self.profiles.profiles.insert(i, (k, edited));
                proof {
                    assert(self.profiles.profiles@ =~= before.update(i as int, (before[i as int].0, edited)));
                    assert forall|other: Seq<char>| other != key@ implies #[trigger] lookup(
                        self.profiles.profiles@,
                        other,
                    ) == lookup(before, other) by {
                        lemma_lookup_replace(before, i as int, edited, key@, other);
                    }
                    lemma_lookup_replace(before, i as int, edited, key@, key@);
                }
                return;
            }
            i = i + 1;
        }
        let entry = (String::from_str(key), edited);
        proof {
            assert(!has_profile_key(before, key@));
            assert forall|other: Seq<char>| other != key@ implies #[trigger] lookup(
                before.push(entry),
                other,
            ) == lookup(before, other) by {
                lemma_lookup_append(before, entry, other);
            }
            lemma_lookup_append(before, entry, key@);
        }
        self.profiles.profiles.push(entry);
    }

    /// What the profile chooser shows as chosen: the selected profile's label, or
    /// `Select...` when none is selected.
    pub fn selected_profile_label(&self) -> (res: String)
        ensures
            res@ == match self.selected_profile_key {
                Some(k) => profile_label_spec(k@, lookup(self.profiles.profiles@, k@)),
                None => "Select..."@,
            },
    {
        match &self.selected_profile_key {
            Some(k) => match find_key(&self.profiles.profiles, k.as_str()) {
                Some(i) => profile_label(k.as_str(), &self.profiles.profiles[i].1),
                None => k.clone(),
            },
            None => {
                proof {
                    reveal_strlit("Select...");
                }
                String::from_str("Select...")
            },
        }
    }

    /// Takes in the outcome of writing the profiles back: a success message, or the error.
    pub fn save_profiles_result(&mut self, outcome: Result<(), String>)
        ensures
            match outcome {
                Ok(()) => {
                    &&& *final(self) == (ModManagerApp {
                        profiles_saved: final(self).profiles_saved,
                        ..*old(self)
                    })
                    &&& message(final(self).profiles_saved) == Some(
                        "Profiles saved successfully."@,
                    )
                },
                Err(e) => *final(self) == (ModManagerApp {
                    profiles_saved: None,
                    profiles_error: Some(e),
                    ..*old(self)
                }),
            },
    {
        self.profiles_saved = None;
        match outcome {
            Ok(()) => {
                proof {
                    reveal_strlit("Profiles saved successfully.");
                }
                self.profiles_saved = Some(String::from_str("Profiles saved successfully."));
            },
            Err(e) => {
                self.profiles_error = Some(e);
            },
        }
    }

    /// Whether a mod called `name` is selected.
    pub fn is_mod_selected(&self, name: &str) -> (b: bool)
        ensures
            b == has_name(self.selected_mods@, name@),
    {
        has_name_exec(&self.selected_mods, name)
    }

    /// Ticks (`checked`) or unticks the mod called `name`.
    pub fn set_mod_selected(&mut self, name: &str, checked: bool)
        ensures
            *final(self) == (ModManagerApp { selected_mods: final(self).selected_mods, ..*old(self) }),
            has_name(final(self).selected_mods@, name@) == checked,
            names_unique(old(self).selected_mods@) ==> names_unique(final(self).selected_mods@),
            forall|n: Seq<char>|
                n != name@ ==> #[trigger] has_name(final(self).selected_mods@, n) == has_name(
                    old(self).selected_mods@,
                    n,
                ),
    {
        let ghost sel = self.selected_mods@;
        if checked {
            if !has_name_exec(&self.selected_mods, name) {
                let ghost before = self.selected_mods@;
                self.selected_mods.push(String::from_str(name));
                proof {
                    let after = self.selected_mods@;
                    assert(after[after.len() - 1]@ == name@);
                    assert forall|a: int, b: int| 0 <= a < b < after.len() && names_unique(before)
                        implies #[trigger] after[a]@ != #[trigger] after[b]@ by {
                        assert(after[a] == before[a]);
                        if b == after.len() - 1 {
                            if before[a]@ == name@ {
                                assert(has_name(before, name@));
                            }
                        } else {
                            assert(after[b] == before[b]);
                        }
                    }
                    assert forall|n: Seq<char>| #[trigger] has_name(after, n) == (has_name(before, n)
                        || n == name@) by {
                        if has_name(before, n) {
                            let j = choose|j: int| 0 <= j < before.len() && before[j]@ == n;
                            assert(after[j]@ == n);
                        }
                        if has_name(after, n) && n != name@ {
                            let j = choose|j: int| 0 <= j < after.len() && after[j]@ == n;
                            assert(before[j]@ == n);
                        }
                    }
                }
            }
        } else {
            let ghost keep = |n: Seq<char>| n != name@;
            let mut kept: Vec<String> = Vec::new();
            let mut i: usize = 0;
            proof {
                reveal(Seq::filter);
            }
            while i < self.selected_mods.len()
                invariant
                    i <= self.selected_mods.len(),
                    sel == self.selected_mods@,
                    keep == (|n: Seq<char>| n != name@),
                    kept@ == names_where(sel.take(i as int), keep),
                decreases self.selected_mods.len() - i,
            {
                proof {
                    reveal(Seq::filter);
                    assert(sel.take(i + 1).drop_last() =~= sel.take(i as int));
                }
                if !same_text(self.selected_mods[i].as_str(), name) {
                    kept.push(self.selected_mods[i].clone());
                }
                i = i + 1;
            }
            assert(sel.take(i as int) =~= sel);
            proof {
                lemma_names_where(sel, keep);
                lemma_names_where_unique(sel, keep);
            }
            self.selected_mods = kept;
        }
    }

    /// Whether "Delete Selected" can be pressed: some mod is listed and some is selected.
    pub fn can_delete_selected(&self) -> (b: bool)
        ensures
            b == (self.mods@.len() > 0 && self.selected_mods@.len() > 0),
    {
        self.mods.len() > 0 && self.selected_mods.len() > 0
    }

    /// Opens the confirmation dialog for the selected mods, when that button is enabled.
    pub fn request_delete_selected(&mut self)
        ensures
            if old(self).mods@.len() > 0 && old(self).selected_mods@.len() > 0 {
                *final(self) == (ModManagerApp {
                    show_confirm: true,
                    confirm_action: Some(ConfirmAction::DeleteSelected),
                    ..*old(self)
                })
            } else {
                *final(self) == *old(self)
            },
    {
        if self.can_delete_selected() {
            self.show_confirm = true;
            self.confirm_action = Some(ConfirmAction::DeleteSelected);
        }
    }

    /// Opens the confirmation dialog for all mods, when there is any.
    pub fn request_clear_all(&mut self)
        ensures
            if old(self).mods@.len() > 0 {
                *final(self) == (ModManagerApp {
                    show_confirm: true,
                    confirm_action: Some(ConfirmAction::ClearAll),
                    ..*old(self)
                })
            } else {
                *final(self) == *old(self)
            },
    {
        if self.mods.len() > 0 {
            self.show_confirm = true;
            self.confirm_action = Some(ConfirmAction::ClearAll);
        }
    }

    /// Closes the confirmation dialog without deleting.
    pub fn cancel_confirm(&mut self)
        ensures
            *final(self) == (ModManagerApp {
                show_confirm: false,
                confirm_action: None,
                ..*old(self)
            }),
    {
        self.show_confirm = false;
        self.confirm_action = None;
    }

    /// The indices of the mods the confirmation dialog is about, in list order.
    pub fn deletion_indices(&self) -> (res: Vec<usize>)
        ensures
            res@ == deletion_targets(*self),
    {
        let mut res: Vec<usize> = Vec::new();
        let mut i: usize = 0;
        while i < self.mods.len()
            invariant
                i <= self.mods.len(),
                res@ == target_indices(self.mods@, self.selected_mods@, self.confirm_action, i as nat),
            decreases self.mods.len() - i,
        {
            let hit = match self.confirm_action {
                Some(ConfirmAction::DeleteSelected) => has_name_exec(
                    &self.selected_mods,
                    self.mods[i].name.as_str(),
                ),
                Some(ConfirmAction::ClearAll) => true,
                None => false,
            };
            if hit {
                res.push(i);
            }
            i = i + 1;
        }
        res
    }

    /// The names the confirmation dialog lists, in list order.
    pub fn confirm_names(&self) -> (res: Vec<String>)
        ensures
            res.len() == deletion_targets(*self).len(),
            forall|k: int|
                0 <= k < res.len() ==> res[k]@ == self.mods@[deletion_targets(*self)[k] as int].name@,
    {
        let idx = self.deletion_indices();
        let total = self.mods.len();
        proof {
            assert(self.mods@.len() == total);
            lemma_target_indices(self.mods@, self.selected_mods@, self.confirm_action, self.mods@.len());
        }
        let mut res: Vec<String> = Vec::new();
        let mut k: usize = 0;
        while k < idx.len()
            invariant
                k <= idx.len(),
                idx@ == deletion_targets(*self),
                forall|j: int| 0 <= j < idx.len() ==> idx[j] < self.mods.len(),
                res.len() == k,
                forall|j: int| 0 <= j < k ==> res[j]@ == self.mods@[idx[j] as int].name@,
            decreases idx.len() - k,
        {
            res.push(self.mods[idx[k]].name.clone());
            k = k + 1;
        }
        res
    }

    /// The question the confirmation dialog asks.
    pub fn confirm_label(&self) -> (res: String)
        ensures
            res@ == confirm_question(self.confirm_action, deletion_targets(*self).len()),
    {
        let n = self.deletion_indices().len();
        match self.confirm_action {
            Some(ConfirmAction::DeleteSelected) => {
                proof {
                    reveal_strlit("Delete ");
                    reveal_strlit(" selected mod(s)?");
                }
                let mut res = String::from_str("Delete ");
                push_str(&mut res, pad_decimal(n as u64, 0).as_str());
                push_str(&mut res, " selected mod(s)?");
                res
            },
            Some(ConfirmAction::ClearAll) => {
                proof {
                    reveal_strlit("Delete all ");
                    reveal_strlit(" mod(s)?");
                }
                let mut res = String::from_str("Delete all ");
                push_str(&mut res, pad_decimal(n as u64, 0).as_str());
                push_str(&mut res, " mod(s)?");
                res
            },
            None => {
                proof {
                    reveal_strlit("");
                }
                String::new()
            },
        }
    }

    /// The warning under the question: whether the mods are backed up first.
    pub fn confirm_warning(&self) -> (res: &'static str)
        ensures
            res@ == if self.backup_enabled {
                "Mods will be backed up before deletion."@
            } else {
                "BACKUP IS DISABLED \u{2014} mods will be permanently deleted."@
            },
    {
        if self.backup_enabled {
            "Mods will be backed up before deletion."
        } else {
            "BACKUP IS DISABLED \u{2014} mods will be permanently deleted."
        }
    }

    /// The first step of a confirmed deletion. With no action open nothing happens; with
    /// nothing to delete the dialog closes with a message; otherwise the indices of the mods
    /// to delete come back and the state is unchanged.
    pub fn begin_delete(&mut self) -> (plan: Option<Vec<usize>>)
        ensures
            old(self).confirm_action is None ==> plan is None && *final(self) == *old(self),
            old(self).confirm_action is Some && deletion_targets(*old(self)).len() == 0 ==> {
                &&& plan is None
                &&& *final(self) == (ModManagerApp {
                    delete_status: final(self).delete_status,
                    show_confirm: false,
                    confirm_action: None,
                    ..*old(self)
                })
                &&& message(final(self).delete_status) == Some("No mods to delete."@)
            },
            old(self).confirm_action is Some && deletion_targets(*old(self)).len() > 0 ==> {
                &&& plan matches Some(p) && p@ == deletion_targets(*old(self))
                &&& *final(self) == *old(self)
            },
    {
        if self.confirm_action.is_none() {
            return None;
        }
        let targets = self.deletion_indices();
        if targets.len() == 0 {
            proof {
                reveal_strlit("No mods to delete.");
            }
            self.delete_status = Some(String::from_str("No mods to delete."));
            self.show_confirm = false;
            self.confirm_action = None;
            return None;
        }
        Some(targets)
    }

    /// Takes in the outcome of the backup made before a deletion: the backup's folder, or the
    /// error, which closes the dialog and stops the deletion (`false`).
    pub fn backup_result(&mut self, outcome: Result<String, String>) -> (go_on: bool)
        ensures
            match outcome {
                Ok(path) => go_on && *final(self) == (ModManagerApp {
                    last_backup: Some(path),
                    ..*old(self)
                }),
                Err(e) => {
                    &&& !go_on
                    &&& *final(self) == (ModManagerApp {
                        delete_status: final(self).delete_status,
                        show_confirm: false,
                        confirm_action: None,
                        ..*old(self)
                    })
                    &&& message(final(self).delete_status) == Some("Backup failed: "@ + e@)
                },
            },
    {
        match outcome {
            Ok(path) => {
                self.last_backup = Some(path);
                true
            },
            Err(e) => {
                proof {
                    reveal_strlit("Backup failed: ");
                }
                self.delete_status = Some(text_message("Backup failed: ", e.as_str()));
                self.show_confirm = false;
                self.confirm_action = None;
                false
            },
        }
    }

    /// The last step of a deletion of `count` mods, of which those in `failures` (name and
    /// error) could not be deleted: the message, an empty selection, the dialog closed.
    pub fn finish_delete(&mut self, count: usize, failures: Vec<(String, String)>)
        requires
            failures.len() <= count,
        ensures
            *final(self) == (ModManagerApp {
                delete_status: final(self).delete_status,
                selected_mods: final(self).selected_mods,
                show_confirm: false,
                confirm_action: None,
                ..*old(self)
            }),
            final(self).selected_mods@.len() == 0,
            message(final(self).delete_status) == Some(
                deletion_message(count as nat, failures@, old(self).backup_enabled),
            ),
    {
        let mut text = String::new();
        proof {
            reveal_strlit("Deleted ");
            reveal_strlit(" mod(s).");
            reveal_strlit(" Backed up before deletion.");
            reveal_strlit("");
            reveal_strlit(" of ");
            reveal_strlit(" mod(s). Errors: ");
            reveal_strlit(": ");
            reveal_strlit("; ");
        }
        push_str(&mut text, "Deleted ");
        if failures.len() == 0 {
            push_str(&mut text, pad_decimal(count as u64, 0).as_str());
            push_str(&mut text, " mod(s).");
            if self.backup_enabled {
                push_str(&mut text, " Backed up before deletion.");
            }
        } else {
            push_str(&mut text, pad_decimal((count - failures.len()) as u64, 0).as_str());
            push_str(&mut text, " of ");
            push_str(&mut text, pad_decimal(count as u64, 0).as_str());
            push_str(&mut text, " mod(s). Errors: ");
            let mut lines: Vec<String> = Vec::new();
            let mut k: usize = 0;
            while k < failures.len()
                invariant
                    k <= failures.len(),
                    lines.deep_view() == failures@.take(k as int).map_values(
                        |f: (String, String)| f.0@ + ": "@ + f.1@,
                    ),
                decreases failures.len() - k,
            {
                let mut line = failures[k].0.clone();
                push_str(&mut line, ": ");
                push_str(&mut line, failures[k].1.as_str());
                let ghost before = lines.deep_view();
                lines.push(line);
                proof {
                    assert(lines.deep_view() =~= before.push(line@));
                    assert(failures@.take(k + 1).map_values(|f: (String, String)| f.0@ + ": "@ + f.1@)
                        =~= failures@.take(k as int).map_values(
                        |f: (String, String)| f.0@ + ": "@ + f.1@,
                    ).push(line@));
                }
                k = k + 1;
            }
            assert(failures@.take(k as int) =~= failures@);
            push_str(&mut text, join_strings(&lines, "; ").as_str());
        }
        self.delete_status = Some(text);
        self.selected_mods = Vec::new();
        self.show_confirm = false;
        self.confirm_action = None;
    }

    /// The launcher path to start: the custom one if set, else the detected one, else empty.
    pub fn launcher_path_to_use(&self) -> (res: String)
        ensures
            res@ == launcher_path_spec(self.custom_launcher_path@, self.detected_launcher_path),
    {
        if !self.custom_launcher_path.as_str().is_empty() {
            self.custom_launcher_path.clone()
        } else {
            match &self.detected_launcher_path {
                Some(d) => d.clone(),
                None => {
                    proof {
                        reveal_strlit("");
                    }
                    String::new()
                },
            }
        }
    }

    /// The settings to write back: the custom launcher path and the logging switch; the
    /// manager keeps no Bedrock path, so that one is written empty.
    pub fn persist_config(&self) -> (config: AppConfig)
        ensures
            config.custom_launcher_path@ == self.custom_launcher_path@,
            config.logging_enabled == self.logging_enabled,
            config.custom_bedrock_path@.len() == 0,
    {
        AppConfig {
            custom_launcher_path: self.custom_launcher_path.clone(),
            logging_enabled: self.logging_enabled,
            custom_bedrock_path: String::new(),
        }
    }

    /// Sets the custom launcher path; `true` when it changed, so that the settings are
    /// written back.
    pub fn set_custom_launcher_path(&mut self, path: String) -> (changed: bool)
        ensures
            *final(self) == (ModManagerApp { custom_launcher_path: path, ..*old(self) }),
            changed == (path@ != old(self).custom_launcher_path@),
    {
        let changed = !same_text(path.as_str(), self.custom_launcher_path.as_str());
        self.custom_launcher_path = path;
        changed
    }

    /// Sets the logging switch; `true` when it changed, so that the settings are written back.
    pub fn set_logging_enabled(&mut self, enabled: bool) -> (changed: bool)
        ensures
            *final(self) == (ModManagerApp { logging_enabled: enabled, ..*old(self) }),
            changed == (enabled != old(self).logging_enabled),
    {
        let changed = enabled != self.logging_enabled;
        self.logging_enabled = enabled;
        changed
    }

    /// Takes in the outcome of starting the launcher: a success message or the error.
    pub fn launch_result(&mut self, outcome: Result<(), String>)
        ensures
            match outcome {
                Ok(()) => {
                    &&& *final(self) == (ModManagerApp {
                        launch_status: final(self).launch_status,
                        launch_error: None,
                        ..*old(self)
                    })
                    &&& message(final(self).launch_status) == Some("Launcher started successfully."@)
                },
                Err(e) => *final(self) == (ModManagerApp {
                    launch_status: None,
                    launch_error: Some(e),
                    ..*old(self)
                }),
            },
    {
        self.launch_error = None;
        self.launch_status = None;
        match outcome {
            Ok(()) => {
                proof {
                    reveal_strlit("Launcher started successfully.");
                }
                self.launch_status = Some(String::from_str("Launcher started successfully."));
            },
            Err(e) => {
                self.launch_error = Some(e);
            },
        }
    }

    /// Takes in the outcome of a direct launch of a profile: `None` when the profile names no
    /// version, else whether reading the version and launching it went well.
    pub fn profile_launch_result(&mut self, outcome: Option<Result<(), String>>)
        ensures
            *final(self) == (ModManagerApp {
                profile_launch_status: final(self).profile_launch_status,
                ..*old(self)
            }),
            message(final(self).profile_launch_status) == Some(
                match outcome {
                    None => "Error: No version ID set for this profile."@,
                    Some(Ok(())) => "Minecraft launched successfully."@,
                    Some(Err(e)) => "Error: "@ + e@,
                },
            ),
    {
        let text = match outcome {
            None => {
                proof {
                    reveal_strlit("Error: No version ID set for this profile.");
                }
                String::from_str("Error: No version ID set for this profile.")
            },
            Some(Ok(())) => {
                proof {
                    reveal_strlit("Minecraft launched successfully.");
                }
                String::from_str("Minecraft launched successfully.")
            },
            Some(Err(e)) => {
                proof {
                    reveal_strlit("Error: ");
                }
                text_message("Error: ", e.as_str())
            },
        };
        self.profile_launch_status = Some(text);
    }

    /// Takes in the outcome of clearing the backups: how many backup folders went, or the
    /// error.
    pub fn backups_cleared(&mut self, outcome: Result<usize, String>)
        ensures
            *final(self) == (ModManagerApp {
                clear_backups_result: final(self).clear_backups_result,
                ..*old(self)
            }),
            message(final(self).clear_backups_result) == Some(
                match outcome {
                    Ok(n) => "Removed "@ + decimal_digits(n as nat) + " backup folder(s)."@,
                    Err(e) => "Error: "@ + e@,
                },
            ),
    {
        let text = match outcome {
            Ok(n) => {
                proof {
                    reveal_strlit("Removed ");
                    reveal_strlit(" backup folder(s).");
                }
                let mut t = String::from_str("Removed ");
                push_str(&mut t, pad_decimal(n as u64, 0).as_str());
                push_str(&mut t, " backup folder(s).");
                t
            },
            Err(e) => {
                proof {
                    reveal_strlit("Error: ");
                }
                text_message("Error: ", e.as_str())
            },
        };
        self.clear_backups_result = Some(text);
    }

    /// Switches between the dark and the light theme.
    pub fn toggle_dark_mode(&mut self)
        ensures
            *final(self) == (ModManagerApp { dark_mode: !old(self).dark_mode, ..*old(self) }),
    {
        self.dark_mode = !self.dark_mode;
    }

    /// Opens or closes the settings window.
    pub fn toggle_settings(&mut self)
        ensures
            *final(self) == (ModManagerApp { show_settings: !old(self).show_settings, ..*old(self) }),
    {
        self.show_settings = !self.show_settings;
    }

    /// Shows `tab`.
    pub fn select_tab(&mut self, tab: Tab)
        ensures
            *final(self) == (ModManagerApp { current_tab: tab, ..*old(self) }),
    {
        self.current_tab = tab;
    }

    /// The lines of the settings window's debug section, given the backup folder.
    pub fn debug_info(&self, backups: &str) -> (res: Vec<String>)
        ensures
            res.deep_view() == debug_lines(*self, backups@),
    {
        proof {
            reveal_strlit("Version: Release v1.0");
            reveal_strlit("Dark Mode: ");
            reveal_strlit("true");
            reveal_strlit("false");
            reveal_strlit("Profiles: ");
            reveal_strlit("Mods: ");
            reveal_strlit("Minecraft: ");
            reveal_strlit("Mods Dir: ");
            reveal_strlit("Backups: ");
            reveal_strlit("Launcher: ");
            reveal_strlit("Selected Profile: ");
            reveal_strlit("none");
        }
        let mut res: Vec<String> = Vec::new();
        res.push(String::from_str("Version: Release v1.0"));
        res.push(text_message("Dark Mode: ", if self.dark_mode { "true" } else { "false" }));
        res.push(text_message("Profiles: ", pad_decimal(self.profiles.profiles.len() as u64, 0).as_str()));
        res.push(text_message("Mods: ", pad_decimal(self.mods.len() as u64, 0).as_str()));
        res.push(text_message("Minecraft: ", self.minecraft_path.as_str()));
        res.push(text_message("Mods Dir: ", self.mods_path.as_str()));
        res.push(text_message("Backups: ", backups));
        res.push(text_message("Launcher: ", self.launcher_path_to_use().as_str()));
        let selected = match &self.selected_profile_key {
            Some(k) => text_message("Selected Profile: ", k.as_str()),
            None => text_message("Selected Profile: ", "none"),
        };
        res.push(selected);
        assert(res.deep_view() =~= debug_lines(*self, backups@));
        res
    }
}

/// What the profile list shows for `profile` under `key`: its name, or the key when the name
/// is empty.
pub fn profile_label(key: &str, profile: &LauncherProfile) -> (res: String)
    ensures
        res@ == profile_label_spec(key@, Some(*profile)),
{
    if !profile.name.as_str().is_empty() {
        profile.name.clone()
    } else {
        String::from_str(key)
    }
}

/// Whether a profile launch message reports a failure: it begins with `Error` or `Failed`.
pub fn is_error_status(status: &str) -> (b: bool)
    ensures
        b == (status@.len() >= 5 && status@.take(5) == "Error"@ || status@.len() >= 6
            && status@.take(6) == "Failed"@),
{
    proof {
        reveal_strlit("Error");
        reveal_strlit("Failed");
    }
    starts_with_str(status, "Error") || starts_with_str(status, "Failed")
}

/// A mod file's size in whole KiB, as the list shows it.
pub fn size_kb(size: u64) -> (kb: u64)
    ensures
        kb == size / 1024,
{
    size / 1024
}

/// Whether a mod of `kb` KiB is shown as large (over 5000 KiB).
pub fn is_large_mod(kb: u64) -> (b: bool)
    ensures
        b == (kb > 5000),
{
    kb > 5000
}

/// The size label of a mod of `size` bytes: whole KiB and ` KB`.
pub fn size_label(size: u64) -> (res: String)
    ensures
        res@ == decimal_digits((size / 1024) as nat) + " KB"@,
{
    proof {
        reveal_strlit(" KB");
    }
    let mut res = pad_decimal(size_kb(size), 0);
    push_str(&mut res, " KB");
    res
}

/// The count shown over the mods list.
pub fn mod_count_label(n: usize) -> (res: String)
    ensures
        res@ == decimal_digits(n as nat) + " mod(s)"@,
{
    proof {
        reveal_strlit(" mod(s)");
    }
    let mut res = pad_decimal(n as u64, 0);
    push_str(&mut res, " mod(s)");
    res
}

/// A profile field as edited: an empty text means the field is not set.
pub fn optional_text(text: String) -> (res: Option<String>)
    ensures
        text@.len() == 0 ==> res is None,
        text@.len() > 0 ==> res == Some(text),
{
    if text.as_str().is_empty() {
        None
    } else {
        Some(text)
    }
}

} // verus!
