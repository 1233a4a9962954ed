use lightning_manager::mods::ModEntry;
use lightning_manager::state::{
    default_logging_enabled, is_error_status, mod_count_label, optional_text, profile_label, size_kb,
    size_label, is_large_mod, without_reserved_profiles, AppConfig, ConfirmAction, LauncherProfile,
    LauncherProfiles, ModManagerApp, Tab,
};

fn entry(name: &str) -> ModEntry {
    ModEntry { name: name.to_string(), path: format!("M:\\mods\\{name}"), size: 2048, modified: None }
}

fn profile(name: &str) -> LauncherProfile {
    LauncherProfile {
        name: name.to_string(),
        profile_type: serde_json::Value::String("custom".to_string()),
        gameDir: None,
        lastVersionId: Some("1.20.1".to_string()),
        javaArgs: None,
        javaDir: None,
        icon: None,
    }
}

fn profiles(keys: &[&str]) -> LauncherProfiles {
    LauncherProfiles {
        profiles: keys.iter().map(|k| (k.to_string(), profile(&format!("name-{k}")))).collect(),
        selectedProfile: None,
    }
}

fn app() -> ModManagerApp {
    ModManagerApp::new(
        "R:\\.minecraft".to_string(),
        "R:\\.minecraft\\mods".to_string(),
        Some("D:\\launcher.exe".to_string()),
        AppConfig { custom_launcher_path: String::new(), logging_enabled: true, custom_bedrock_path: String::new() },
    )
}

fn app_with_mods(names: &[&str]) -> ModManagerApp {
    let mut a = app();
    a.refresh_mods(Ok(names.iter().map(|n| entry(n)).collect()));
    a
}

#[test]
fn config_defaults() {
    let c = AppConfig::default();
    assert_eq!(c.custom_launcher_path, "");
    assert!(c.logging_enabled);
    assert_eq!(c.custom_bedrock_path, "");
    assert!(default_logging_enabled());
}

#[test]
fn new_state() {
    let a = app();
    assert_eq!(a.current_tab, Tab::Mods);
    assert!(a.dark_mode);
    assert!(a.backup_enabled);
    assert!(!a.show_confirm);
    assert!(a.mods.is_empty());
    assert_eq!(a.launcher_path_to_use(), "D:\\launcher.exe");
}

#[test]
fn reserved_profiles_are_dropped() {
    let p = without_reserved_profiles(profiles(&["latest-release", "abc", "latest-snapshot", "def"]));
    let keys: Vec<&str> = p.profiles.iter().map(|(k, _)| k.as_str()).collect();
    assert_eq!(keys, vec!["abc", "def"]);
}

#[test]
fn refresh_keeps_only_listed_selection() {
    let mut a = app_with_mods(&["a.jar", "b.jar"]);
    a.set_mod_selected("a.jar", true);
    a.set_mod_selected("b.jar", true);
    a.refresh_mods(Ok(vec![entry("b.jar"), entry("c.jar")]));
    assert!(!a.is_mod_selected("a.jar"));
    assert!(a.is_mod_selected("b.jar"));
    assert_eq!(a.selected_mods, vec!["b.jar".to_string()]);
    assert!(a.mods_error.is_none());
}

#[test]
fn refresh_failure_empties_the_list() {
    let mut a = app_with_mods(&["a.jar"]);
    a.refresh_mods(Err("access denied".to_string()));
    assert!(a.mods.is_empty());
    assert_eq!(a.mods_error, Some("Failed to list mods: access denied".to_string()));
}

#[test]
fn selecting_and_unselecting() {
    let mut a = app_with_mods(&["a.jar", "b.jar"]);
    a.set_mod_selected("a.jar", true);
    a.set_mod_selected("a.jar", true);
    assert_eq!(a.selected_mods.len(), 1);
    assert!(a.is_mod_selected("a.jar"));
    a.set_mod_selected("a.jar", false);
    assert!(!a.is_mod_selected("a.jar"));
    assert!(a.selected_mods.is_empty());
}

#[test]
fn delete_selected_needs_a_selection() {
    let mut a = app_with_mods(&["a.jar", "b.jar"]);
    a.request_delete_selected();
    assert!(!a.show_confirm);
    a.set_mod_selected("b.jar", true);
    assert!(a.can_delete_selected());
    a.request_delete_selected();
    assert!(a.show_confirm);
    assert_eq!(a.confirm_action, Some(ConfirmAction::DeleteSelected));
    assert_eq!(a.deletion_indices(), vec![1]);
    assert_eq!(a.confirm_names(), vec!["b.jar".to_string()]);
    assert_eq!(a.confirm_label(), "Delete 1 selected mod(s)?");
    assert_eq!(a.confirm_warning(), "Mods will be backed up before deletion.");
    a.cancel_confirm();
    assert!(!a.show_confirm);
    assert!(a.confirm_action.is_none());
}

#[test]
fn clear_all_targets_every_mod() {
    let mut a = app_with_mods(&["a.jar", "b.jar", "c.jar"]);
    a.request_clear_all();
    assert_eq!(a.confirm_action, Some(ConfirmAction::ClearAll));
    assert_eq!(a.deletion_indices(), vec![0, 1, 2]);
    assert_eq!(a.confirm_label(), "Delete all 3 mod(s)?");
    a.backup_enabled = false;
    assert_eq!(
        a.confirm_warning(),
        "BACKUP IS DISABLED \u{2014} mods will be permanently deleted."
    );
    let mut empty = app();
    empty.request_clear_all();
    assert!(!empty.show_confirm);
}

#[test]
fn delete_flow_success() {
    let mut a = app_with_mods(&["a.jar", "b.jar"]);
    a.set_mod_selected("a.jar", true);
    a.request_delete_selected();
    let plan = a.begin_delete().expect("something to delete");
    assert_eq!(plan, vec![0]);
    assert!(a.backup_result(Ok("B:\\backup\\2024".to_string())));
    assert_eq!(a.last_backup, Some("B:\\backup\\2024".to_string()));
    a.finish_delete(1, Vec::new());
    assert_eq!(a.delete_status, Some("Deleted 1 mod(s). Backed up before deletion.".to_string()));
    assert!(a.selected_mods.is_empty());
    assert!(!a.show_confirm);
    assert!(a.confirm_action.is_none());
}

#[test]
fn delete_flow_with_failures_and_no_backup() {
    let mut a = app_with_mods(&["a.jar", "b.jar", "c.jar"]);
    a.backup_enabled = false;
    a.request_clear_all();
    assert_eq!(a.begin_delete(), Some(vec![0, 1, 2]));
    a.finish_delete(
        3,
        vec![("a.jar".to_string(), "in use".to_string()), ("c.jar".to_string(), "denied".to_string())],
    );
    assert_eq!(
        a.delete_status,
        Some("Deleted 1 of 3 mod(s). Errors: a.jar: in use; c.jar: denied".to_string())
    );
    let mut b = app_with_mods(&["a.jar"]);
    b.backup_enabled = false;
    b.request_clear_all();
    b.begin_delete();
    b.finish_delete(1, Vec::new());
    assert_eq!(b.delete_status, Some("Deleted 1 mod(s).".to_string()));
}

#[test]
fn delete_flow_backup_failure_stops() {
    let mut a = app_with_mods(&["a.jar"]);
    a.request_clear_all();
    assert!(a.begin_delete().is_some());
    assert!(!a.backup_result(Err("disk full".to_string())));
    assert_eq!(a.delete_status, Some("Backup failed: disk full".to_string()));
    assert!(!a.show_confirm);
}

#[test]
fn delete_flow_nothing_to_delete() {
    let mut a = app_with_mods(&["a.jar"]);
    assert_eq!(a.begin_delete(), None);
    assert!(a.delete_status.is_none());
    a.confirm_action = Some(ConfirmAction::DeleteSelected);
    a.show_confirm = true;
    assert_eq!(a.begin_delete(), None);
    assert_eq!(a.delete_status, Some("No mods to delete.".to_string()));
    assert!(!a.show_confirm);
}

#[test]
fn profiles_reload_keeps_or_picks_selection() {
    let mut a = app();
    a.refresh_profiles(Ok(profiles(&["x", "y"])));
    assert_eq!(a.selected_profile_key, Some("x".to_string()));
    a.selected_profile_key = Some("y".to_string());
    a.refresh_profiles(Ok(profiles(&["x", "y"])));
    assert_eq!(a.selected_profile_key, Some("y".to_string()));
    a.refresh_profiles(Ok(profiles(&["z"])));
    assert_eq!(a.selected_profile_key, Some("z".to_string()));
    a.refresh_profiles(Ok(profiles(&[])));
    assert_eq!(a.selected_profile_key, None);
    a.refresh_profiles(Err("Failed to parse profiles: eof".to_string()));
    assert_eq!(a.profiles_error, Some("Failed to parse profiles: eof".to_string()));
    a.refresh_profiles(Ok(profiles(&["q"])));
    assert!(a.profiles_error.is_none());
}

#[test]
fn profile_edits_replace_or_add() {
    let mut a = app();
    a.refresh_profiles(Ok(profiles(&["x", "y"])));
    a.update_profile("y", profile("Renamed"));
    assert_eq!(a.profiles.profiles.len(), 2);
    assert_eq!(a.profiles.profiles[1].0, "y");
    assert_eq!(a.profiles.profiles[1].1.name, "Renamed");
    assert_eq!(a.profiles.profiles[0].1.name, "name-x");
    a.update_profile("new", profile("Fresh"));
    assert_eq!(a.profiles.profiles.len(), 3);
    assert_eq!(a.profiles.profiles[2].0, "new");
}

#[test]
fn profile_labels() {
    assert_eq!(profile_label("key", &profile("Name")), "Name");
    assert_eq!(profile_label("key", &profile("")), "key");
    let mut a = app();
    assert_eq!(a.selected_profile_label(), "Select...");
    a.refresh_profiles(Ok(profiles(&["x"])));
    assert_eq!(a.selected_profile_label(), "name-x");
    a.update_profile("x", profile(""));
    assert_eq!(a.selected_profile_label(), "x");
    a.selected_profile_key = Some("gone".to_string());
    assert_eq!(a.selected_profile_label(), "gone");
}

#[test]
fn saving_profiles_messages() {
    let mut a = app();
    a.save_profiles_result(Ok(()));
    assert_eq!(a.profiles_saved, Some("Profiles saved successfully.".to_string()));
    a.save_profiles_result(Err("Failed to write profiles: denied".to_string()));
    assert!(a.profiles_saved.is_none());
    assert_eq!(a.profiles_error, Some("Failed to write profiles: denied".to_string()));
}

#[test]
fn launcher_path_prefers_custom() {
    let mut a = app();
    assert!(a.set_custom_launcher_path("C:\\custom.exe".to_string()));
    assert!(!a.set_custom_launcher_path("C:\\custom.exe".to_string()));
    assert_eq!(a.launcher_path_to_use(), "C:\\custom.exe");
    a.set_custom_launcher_path(String::new());
    a.detected_launcher_path = None;
    assert_eq!(a.launcher_path_to_use(), "");
}

#[test]
fn config_written_back() {
    let mut a = app();
    a.set_custom_launcher_path("C:\\l.exe".to_string());
    assert!(a.set_logging_enabled(false));
    assert!(!a.set_logging_enabled(false));
    let c = a.persist_config();
    assert_eq!(c.custom_launcher_path, "C:\\l.exe");
    assert!(!c.logging_enabled);
    assert_eq!(c.custom_bedrock_path, "");
}

#[test]
fn launch_messages() {
    let mut a = app();
    a.launch_result(Ok(()));
    assert_eq!(a.launch_status, Some("Launcher started successfully.".to_string()));
    a.launch_result(Err("File not found: x".to_string()));
    assert!(a.launch_status.is_none());
    assert_eq!(a.launch_error, Some("File not found: x".to_string()));
    a.profile_launch_result(None);
    assert_eq!(a.profile_launch_status, Some("Error: No version ID set for this profile.".to_string()));
    a.profile_launch_result(Some(Ok(())));
    assert_eq!(a.profile_launch_status, Some("Minecraft launched successfully.".to_string()));
    a.profile_launch_result(Some(Err("Failed to read auth data: x".to_string())));
    assert_eq!(a.profile_launch_status, Some("Error: Failed to read auth data: x".to_string()));
}

#[test]
fn backup_clearing_messages() {
    let mut a = app();
    a.backups_cleared(Ok(3));
    assert_eq!(a.clear_backups_result, Some("Removed 3 backup folder(s).".to_string()));
    a.backups_cleared(Err("Failed to clear backups: busy".to_string()));
    assert_eq!(a.clear_backups_result, Some("Error: Failed to clear backups: busy".to_string()));
}

#[test]
fn status_colours() {
    assert!(is_error_status("Error: x"));
    assert!(is_error_status("Failed to launch"));
    assert!(!is_error_status("Minecraft launched successfully."));
    assert!(!is_error_status("Err"));
}

#[test]
fn mod_row_helpers() {
    assert_eq!(size_kb(5 * 1024 * 1024), 5120);
    assert_eq!(size_kb(1023), 0);
    assert!(is_large_mod(5001));
    assert!(!is_large_mod(5000));
    assert_eq!(size_label(2048), "2 KB");
    assert_eq!(mod_count_label(12), "12 mod(s)");
    assert_eq!(optional_text(String::new()), None);
    assert_eq!(optional_text("x".to_string()), Some("x".to_string()));
}

#[test]
fn toggles_and_tabs() {
    let mut a = app();
    a.toggle_dark_mode();
    assert!(!a.dark_mode);
    a.toggle_settings();
    assert!(a.show_settings);
    a.select_tab(Tab::Launcher);
    assert_eq!(a.current_tab, Tab::Launcher);
}

#[test]
fn debug_lines() {
    let mut a = app_with_mods(&["a.jar", "b.jar"]);
    a.refresh_profiles(Ok(profiles(&["x"])));
    assert_eq!(
        a.debug_info("B:\\backups"),
        vec![
            "Version: Release v1.0".to_string(),
            "Dark Mode: true".to_string(),
            "Profiles: 1".to_string(),
            "Mods: 2".to_string(),
            "Minecraft: R:\\.minecraft".to_string(),
            "Mods Dir: R:\\.minecraft\\mods".to_string(),
            "Backups: B:\\backups".to_string(),
            "Launcher: D:\\launcher.exe".to_string(),
            "Selected Profile: x".to_string(),
        ]
    );
}

#[test]
fn keys_stay_unique() {
    let mut a = app();
    a.refresh_profiles(Ok(profiles(&["x", "y"])));
    a.update_profile("x", profile("again"));
    a.update_profile("x", profile("and again"));
    let keys: Vec<&str> = a.profiles.profiles.iter().map(|(k, _)| k.as_str()).collect();
    assert_eq!(keys, vec!["x", "y"]);
    let mut b = app_with_mods(&["a.jar"]);
    b.set_mod_selected("a.jar", true);
    b.set_mod_selected("a.jar", true);
    b.refresh_mods(Ok(vec![entry("a.jar")]));
    assert_eq!(b.selected_mods, vec!["a.jar".to_string()]);
}
