use lightning_manager::paths::{
    assets_dir, backup_dir, bedrock_backup_dir, bedrock_behavior_packs_dir, bedrock_candidates,
    bedrock_default_dir, bedrock_dir, bedrock_dir_under, bedrock_resource_packs_dir, first_existing,
    first_present,
    join_path, libraries_dir, minecraft_dir, mods_dir, package_dir_under, profiles_path,
    roaming_dir_from, versions_dir,
};

#[test]
fn join_adds_one_separator() {
    assert_eq!(join_path("C:\\a", "b"), "C:\\a\\b");
    assert_eq!(join_path("C:\\a\\", "b"), "C:\\a\\b");
    assert_eq!(join_path("C:/a/", "b"), "C:/a/b");
    assert_eq!(join_path("", "b"), "b");
}

#[test]
fn join_with_absolute_segment_replaces() {
    assert_eq!(join_path("C:\\a", "D:\\x"), "D:\\x");
    assert_eq!(join_path("C:\\a", "\\x"), "C:\\x");
    assert_eq!(join_path("rel\\a", "/x"), "/x");
}

#[test]
fn join_onto_bare_drive_adds_no_separator() {
    assert_eq!(join_path("D:", "x"), "D:x");
    assert_eq!(join_path("D:\\", "x"), "D:\\x");
}

#[test]
fn roaming_falls_back_to_default_user() {
    assert_eq!(roaming_dir_from(None), "C:\\Users\\Default\\AppData\\Roaming");
    assert_eq!(roaming_dir_from(Some("R:\\roam".to_string())), "R:\\roam");
}

#[test]
fn minecraft_folders_are_under_dot_minecraft() {
    let mc = minecraft_dir();
    assert!(mc.ends_with(".minecraft"));
    assert_eq!(mods_dir(), format!("{mc}\\mods"));
    assert_eq!(profiles_path(), format!("{mc}\\launcher_profiles.json"));
    assert_eq!(backup_dir(), format!("{mc}\\mods_backup"));
    assert_eq!(versions_dir(), format!("{mc}\\versions"));
    assert_eq!(libraries_dir(), format!("{mc}\\libraries"));
    assert_eq!(assets_dir(), format!("{mc}\\assets"));
}

#[test]
fn bedrock_folder_under_roaming() {
    assert_eq!(
        bedrock_dir_under("R:\\roam"),
        "R:\\roam\\Minecraft Bedrock\\Users\\Shared\\games\\com.mojang"
    );
    assert!(bedrock_default_dir().ends_with("Minecraft Bedrock\\Users\\Shared\\games\\com.mojang"));
}

#[test]
fn package_folder_layout() {
    assert_eq!(
        package_dir_under("L:\\local", "Pkg"),
        "L:\\local\\Packages\\Pkg\\LocalState\\games\\com.mojang"
    );
}

#[test]
fn custom_bedrock_folder_wins_and_is_trimmed() {
    let d = Some("D:\\detected".to_string());
    assert_eq!(bedrock_dir(Some("  E:\\bedrock  "), d.clone()), "E:\\bedrock");
    assert_eq!(bedrock_dir(Some("   "), d.clone()), "D:\\detected");
    assert_eq!(bedrock_dir(None, d), "D:\\detected");
    assert_eq!(bedrock_dir(None, None), bedrock_default_dir());
}

#[test]
fn bedrock_subfolders() {
    let d = Some("D:\\b".to_string());
    assert_eq!(bedrock_behavior_packs_dir(None, d.clone()), "D:\\b\\behavior_packs");
    assert_eq!(bedrock_resource_packs_dir(Some("E:\\c"), d.clone()), "E:\\c\\resource_packs");
    assert_eq!(bedrock_backup_dir(None, d), "D:\\b\\lightning_packs_backup");
}

#[test]
fn bedrock_candidates_in_order() {
    let names = vec![
        "Microsoft.MinecraftEducation".to_string(),
        "Other.App".to_string(),
        "some.MINECRAFT.thing".to_string(),
    ];
    let c = bedrock_candidates("R:\\b", Some("L:\\l"), &names);
    assert_eq!(
        c,
        vec![
            "R:\\b".to_string(),
            "L:\\l\\Packages\\Microsoft.MinecraftUWP_8wekyb3d8bbwe\\LocalState\\games\\com.mojang".to_string(),
            "L:\\l\\Packages\\Microsoft.MinecraftWindowsBeta_8wekyb3d8bbwe\\LocalState\\games\\com.mojang".to_string(),
            "L:\\l\\Packages\\Microsoft.MinecraftEducation\\LocalState\\games\\com.mojang".to_string(),
            "L:\\l\\Packages\\some.MINECRAFT.thing\\LocalState\\games\\com.mojang".to_string(),
        ]
    );
    assert_eq!(bedrock_candidates("R:\\b", None, &names), vec!["R:\\b".to_string()]);
}

#[test]
fn first_existing_picks_an_existing_candidate() {
    let here = ".".to_string();
    let missing = "surely-missing-lightning-manager-entry".to_string();
    assert_eq!(first_existing(&vec![missing.clone(), here.clone()]), Some(here));
    assert_eq!(first_existing(&vec![missing]), None);
}

#[test]
fn first_present_takes_the_earliest_marked() {
    let c = vec!["a".to_string(), "b".to_string(), "c".to_string()];
    assert_eq!(first_present(&c, &vec![false, true, true]), Some("b".to_string()));
    assert_eq!(first_present(&c, &vec![true, false, true]), Some("a".to_string()));
    assert_eq!(first_present(&c, &vec![false, false, false]), None);
}
