use lightning_manager::mods::bedrock_manifest_name;
use lightning_manager::mods::{
    bedrock_pack_entry, extension, is_minecraft_name, is_mod_file, is_pack_file, list_bedrock_packs,
    list_mods, pack_display_name, sort_mods, BedrockPackEntry, BedrockPackKind, ModEntry,
};

fn entry(name: &str) -> ModEntry {
    ModEntry { name: name.to_string(), path: format!("M:\\mods\\{name}"), size: 10, modified: None }
}

fn pack(name: &str, display: &str, kind: BedrockPackKind) -> BedrockPackEntry {
    BedrockPackEntry {
        name: name.to_string(),
        display_name: display.to_string(),
        path: format!("P:\\{name}"),
        size: 1,
        modified: None,
        kind,
        is_folder: true,
    }
}

#[test]
fn extensions() {
    assert_eq!(extension("sodium.jar"), Some("jar".to_string()));
    assert_eq!(extension("archive.tar.gz"), Some("gz".to_string()));
    assert_eq!(extension("noext"), None);
    assert_eq!(extension(".hidden"), None);
    assert_eq!(extension("trailing."), Some("".to_string()));
}

#[test]
fn mod_files_are_jars() {
    assert!(is_mod_file("sodium-0.5.jar"));
    assert!(!is_mod_file("sodium.JAR"));
    assert!(!is_mod_file("readme.txt"));
    assert!(!is_mod_file("jar"));
}

#[test]
fn pack_files_in_any_case() {
    assert!(is_pack_file("pack.mcpack"));
    assert!(is_pack_file("addon.McAddon"));
    assert!(is_pack_file("texture.ZIP"));
    assert!(!is_pack_file("notes.txt"));
    assert!(!is_pack_file("zip"));
}

#[test]
fn minecraft_package_names() {
    assert!(is_minecraft_name("Microsoft.MinecraftUWP_8wekyb3d8bbwe"));
    assert!(!is_minecraft_name("Microsoft.Photos"));
}

#[test]
fn mods_sorted_by_name() {
    let sorted = sort_mods(vec![entry("b.jar"), entry("a.jar"), entry("C.jar")]);
    let names: Vec<&str> = sorted.iter().map(|m| m.name.as_str()).collect();
    assert_eq!(names, vec!["C.jar", "a.jar", "b.jar"]);
}

#[test]
fn listing_keeps_only_jars_sorted() {
    let listed = list_mods(vec![entry("z.jar"), entry("notes.txt"), entry("a.jar"), entry("x.zip")]);
    let names: Vec<&str> = listed.iter().map(|m| m.name.as_str()).collect();
    assert_eq!(names, vec!["a.jar", "z.jar"]);
}

#[test]
fn pack_labels_and_ids() {
    assert_eq!(BedrockPackKind::Behavior.label(), "Behavior Pack");
    assert_eq!(BedrockPackKind::Resource.label(), "Resource Pack");
    assert_eq!(BedrockPackKind::Behavior.folder_name(), "behavior_packs");
    assert_eq!(BedrockPackKind::Resource.folder_name(), "resource_packs");
    let p = pack("MyPack", "My Pack", BedrockPackKind::Resource);
    assert_eq!(p.selection_id(), "resource_packs:MyPack");
}

#[test]
fn display_name_from_manifest_unless_blank() {
    assert_eq!(pack_display_name(Some("Cool Pack".to_string()), "cool"), "Cool Pack");
    assert_eq!(pack_display_name(Some("   ".to_string()), "cool"), "cool");
    assert_eq!(pack_display_name(None, "cool"), "cool");
}

#[test]
fn pack_entries_only_for_folders_and_archives() {
    let kind = BedrockPackKind::Behavior;
    assert!(bedrock_pack_entry("notes.txt".into(), "p".into(), false, None, 3, None, kind).is_none());
    let archive = bedrock_pack_entry("x.mcpack".into(), "p".into(), false, None, 3, None, kind).unwrap();
    assert_eq!(archive.display_name, "x.mcpack");
    assert_eq!(archive.size, 3);
    let folder =
        bedrock_pack_entry("dir".into(), "p".into(), true, Some("Named".into()), 9, None, kind).unwrap();
    assert_eq!(folder.display_name, "Named");
    assert!(folder.is_folder);
}

#[test]
fn packs_listed_behavior_first_then_by_display_name() {
    let listed = list_bedrock_packs(
        vec![pack("b2", "Zeta", BedrockPackKind::Behavior), pack("b1", "Alpha", BedrockPackKind::Behavior)],
        vec![pack("r1", "Aardvark", BedrockPackKind::Resource)],
    );
    let ids: Vec<String> = listed.iter().map(|p| p.selection_id()).collect();
    assert_eq!(ids, vec!["behavior_packs:b1", "behavior_packs:b2", "resource_packs:r1"]);
}

#[test]
fn selection_ids_differ_for_different_packs() {
    let a = pack("x", "X", BedrockPackKind::Behavior).selection_id();
    let b = pack("x", "X", BedrockPackKind::Resource).selection_id();
    let c = pack("y", "X", BedrockPackKind::Behavior).selection_id();
    assert_ne!(a, b);
    assert_ne!(a, c);
    assert_ne!(b, c);
}

#[test]
fn equal_display_names_keep_their_order() {
    let listed = list_bedrock_packs(
        vec![
            pack("first", "Same", BedrockPackKind::Behavior),
            pack("second", "Same", BedrockPackKind::Behavior),
            pack("third", "Same", BedrockPackKind::Behavior),
        ],
        Vec::new(),
    );
    let names: Vec<&str> = listed.iter().map(|p| p.name.as_str()).collect();
    assert_eq!(names, vec!["first", "second", "third"]);
}

#[test]
fn pack_name_from_description_file() {
    assert_eq!(
        bedrock_manifest_name(r#"{"format_version": 2, "header": {"name": "Cool Pack", "uuid": "x"}}"#),
        Some("Cool Pack".to_string())
    );
    assert_eq!(bedrock_manifest_name(r#"{"header": {"name": "   "}}"#), None);
    assert_eq!(bedrock_manifest_name(r#"{"header": {"name": 3}}"#), None);
    assert_eq!(bedrock_manifest_name(r#"{"modules": []}"#), None);
    assert_eq!(bedrock_manifest_name("not json"), None);
}
