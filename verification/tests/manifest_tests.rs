use lightning_manager::manifest::{
    classpath_from, find_key, library_file_under, is_rule_allowed, library_paths, maven_path, merge_parent, native_path,
    version_jar, ArgumentsBlock, ArtifactDef, AssetIndexDef, GameArg, LibraryDef,
    LibraryDownloadsDef, OsDef, RuleDef, VersionManifest,
};

fn rule(action: &str, os: Option<&str>) -> RuleDef {
    RuleDef {
        action: action.to_string(),
        os: os.map(|n| OsDef { name: Some(n.to_string()) }),
    }
}

fn manifest(id: &str) -> VersionManifest {
    VersionManifest {
        id: Some(id.to_string()),
        manifest_type: None,
        main_class: "net.minecraft.client.main.Main".to_string(),
        minecraft_arguments: None,
        arguments: None,
        libraries: Vec::new(),
        assets: String::new(),
        asset_index: None,
        inherits_from: None,
    }
}

fn lib(name: &str) -> LibraryDef {
    LibraryDef { name: name.to_string(), downloads: None, natives: None, rules: None }
}

#[test]
fn no_rules_allow() {
    assert!(is_rule_allowed(&[]));
}

#[test]
fn last_matching_rule_decides() {
    assert!(!is_rule_allowed(&[rule("allow", None), rule("disallow", Some("windows"))]));
    assert!(is_rule_allowed(&[rule("disallow", None), rule("allow", Some("Windows"))]));
    assert!(is_rule_allowed(&[rule("allow", None), rule("disallow", Some("osx"))]));
    assert!(!is_rule_allowed(&[rule("allow", Some("linux")), rule("disallow", None)]));
}

#[test]
fn unknown_actions_are_ignored() {
    assert!(!is_rule_allowed(&[rule("disallow", None), rule("maybe", None)]));
}

#[test]
fn rule_without_os_name_applies() {
    let r = RuleDef { action: "disallow".to_string(), os: Some(OsDef { name: None }) };
    assert!(!is_rule_allowed(&[r]));
}

#[test]
fn maven_layout_paths() {
    assert_eq!(
        maven_path("org.lwjgl:lwjgl:3.3.1", "L:\\libs"),
        Some("L:\\libs\\org/lwjgl\\lwjgl\\3.3.1\\lwjgl-3.3.1.jar".to_string())
    );
    assert_eq!(
        maven_path("org.lwjgl:lwjgl:3.3.1:natives-windows", "L:\\libs"),
        Some("L:\\libs\\org/lwjgl\\lwjgl\\3.3.1\\lwjgl-3.3.1-natives-windows.jar".to_string())
    );
    assert_eq!(maven_path("broken:name", "L:\\libs"), None);
}

#[test]
fn native_artifact_by_windows_classifier() {
    let mut l = lib("org.lwjgl:lwjgl-glfw:3.2.2");
    l.natives = Some(vec![
        ("linux".to_string(), "natives-linux".to_string()),
        ("windows".to_string(), "natives-windows".to_string()),
    ]);
    l.downloads = Some(LibraryDownloadsDef {
        artifact: Some(ArtifactDef { path: "a/main.jar".to_string(), url: None }),
        classifiers: Some(vec![
            ("natives-linux".to_string(), ArtifactDef { path: "a/linux.jar".to_string(), url: None }),
            ("natives-windows".to_string(), ArtifactDef { path: "a/win.jar".to_string(), url: None }),
        ]),
    });
    assert_eq!(native_path(&l, "L:\\libs"), Some("L:\\libs\\a/win.jar".to_string()));
    assert_eq!(
        library_paths(&l, "L:\\libs"),
        vec![
            "L:\\libs\\a/main.jar".to_string(),
            "L:\\libs\\a/win.jar".to_string(),
            "L:\\libs\\org/lwjgl\\lwjgl-glfw\\3.2.2\\lwjgl-glfw-3.2.2.jar".to_string(),
        ]
    );
    l.natives = None;
    assert_eq!(native_path(&l, "L:\\libs"), None);
}

#[test]
fn find_key_finds_first() {
    let entries = vec![("a".to_string(), 1), ("b".to_string(), 2), ("a".to_string(), 3)];
    assert_eq!(find_key(&entries, "a"), Some(0));
    assert_eq!(find_key(&entries, "b"), Some(1));
    assert_eq!(find_key(&entries, "c"), None);
}

#[test]
fn version_jar_layout() {
    assert_eq!(version_jar("V:\\versions", "1.20.1"), "V:\\versions\\1.20.1\\1.20.1.jar");
}

#[test]
fn classpath_joins_found_files_then_jar() {
    let found = vec![Some("a.jar".to_string()), None, Some("b.jar".to_string())];
    assert_eq!(classpath_from(&found, Some("v.jar".to_string())), "a.jar;b.jar;v.jar");
    assert_eq!(classpath_from(&found, None), "a.jar;b.jar");
    assert_eq!(classpath_from(&Vec::new(), None), "");
}

#[test]
fn merge_takes_parent_libraries_first_and_fills_gaps() {
    let mut child = manifest("fabric");
    child.libraries = vec![lib("c:c:1")];
    child.inherits_from = Some("1.20.1".to_string());
    let mut parent = manifest("1.20.1");
    parent.libraries = vec![lib("p:p:1"), lib("q:q:1")];
    parent.assets = "8".to_string();
    parent.asset_index = Some(AssetIndexDef { id: "8".to_string() });
    parent.minecraft_arguments = Some("--username ${auth_player_name}".to_string());
    let merged = merge_parent(child, parent);
    let names: Vec<&str> = merged.libraries.iter().map(|l| l.name.as_str()).collect();
    assert_eq!(names, vec!["p:p:1", "q:q:1", "c:c:1"]);
    assert_eq!(merged.assets, "8");
    assert_eq!(merged.asset_index.map(|a| a.id), Some("8".to_string()));
    assert_eq!(merged.id, Some("fabric".to_string()));
    assert_eq!(merged.minecraft_arguments, Some("--username ${auth_player_name}".to_string()));
    assert!(merged.arguments.is_none());
}

#[test]
fn merge_keeps_child_values() {
    let mut child = manifest("child");
    child.assets = "legacy".to_string();
    child.minecraft_arguments = Some("--demo".to_string());
    let mut parent = manifest("parent");
    parent.assets = "8".to_string();
    parent.minecraft_arguments = Some("--username x".to_string());
    let merged = merge_parent(child, parent);
    assert_eq!(merged.assets, "legacy");
    assert_eq!(merged.minecraft_arguments, Some("--demo".to_string()));
}

#[test]
fn merge_puts_parent_words_before_child_arguments() {
    let mut child = manifest("child");
    child.arguments = Some(ArgumentsBlock {
        game: vec![GameArg::Text("--quickPlay".to_string())],
        jvm: vec![GameArg::Text("-Dx".to_string())],
    });
    let mut parent = manifest("parent");
    parent.minecraft_arguments = Some("--username \"A B\"".to_string());
    let merged = merge_parent(child, parent);
    assert!(merged.minecraft_arguments.is_none());
    let args = merged.arguments.expect("arguments");
    let texts: Vec<String> = args
        .game
        .iter()
        .map(|g| match g {
            GameArg::Text(s) => s.clone(),
            _ => "?".to_string(),
        })
        .collect();
    assert_eq!(texts, vec!["--username", "A B", "--quickPlay"]);
    assert!(args.jvm.is_empty());
}

#[test]
fn library_file_is_first_existing_candidate() {
    let mut l = lib("none:none:0");
    l.downloads = Some(LibraryDownloadsDef {
        artifact: Some(ArtifactDef { path: ".".to_string(), url: None }),
        classifiers: None,
    });
    // Under an empty libraries folder the artifact path is "." itself, which exists.
    assert_eq!(library_file_under(&l, ""), Some(".".to_string()));
    assert_eq!(library_file_under(&l, "surely-missing-libraries"), None);
    l.rules = Some(vec![rule("disallow", Some("windows"))]);
    assert_eq!(library_file_under(&l, ""), None);
}
