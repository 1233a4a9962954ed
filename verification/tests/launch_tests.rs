use lightning_manager::launch::auth_data_from_text;
use lightning_manager::launch::{
    auth_values, check_launcher_path, find_java, pick_java, is_native_library_entry, java_candidates,
    known_launcher_paths, launch_arguments, launch_log_entry, launcher_candidates,
    launcher_exe_candidates, natives_dir, windowed_options, AuthAccount,
};
use lightning_manager::manifest::{ArgumentsBlock, AssetIndexDef, GameArg, VersionManifest};

fn manifest() -> VersionManifest {
    VersionManifest {
        id: Some("1.20.1".to_string()),
        manifest_type: Some("release".to_string()),
        main_class: "net.minecraft.client.main.Main".to_string(),
        minecraft_arguments: None,
        arguments: Some(ArgumentsBlock {
            game: vec![
                GameArg::Text("--username".to_string()),
                GameArg::Text("${auth_player_name}".to_string()),
                GameArg::Text("--assetIndex ${assets_index_name}".to_string()),
            ],
            jvm: Vec::new(),
        }),
        libraries: Vec::new(),
        assets: "legacy".to_string(),
        asset_index: Some(AssetIndexDef { id: "8".to_string() }),
        inherits_from: None,
    }
}

#[test]
fn direct_launch_arguments() {
    let args = launch_arguments(
        Some("-Xmx4G -Djava.library.path=x -XX:+UseG1GC"),
        "T:\\natives",
        "a.jar;b.jar",
        &manifest(),
        "Steve",
        "tok",
        "uuid",
        "G:\\game",
        "A:\\assets",
    );
    assert_eq!(
        args,
        vec![
            "-Xmx4G",
            "-XX:+UseG1GC",
            "-Djava.library.path=T:\\natives",
            "-cp",
            "a.jar;b.jar",
            "net.minecraft.client.main.Main",
            "--username",
            "Steve",
            "--assetIndex",
            "8",
        ]
    );
}

#[test]
fn default_memory_when_no_custom_arguments() {
    let mut m = manifest();
    m.arguments = None;
    m.minecraft_arguments = Some("--version ${version_name} --gameDir \"${game_directory}\"".to_string());
    let args = launch_arguments(None, "N", "cp", &m, "u", "t", "i", "G:\\My Game", "A");
    assert_eq!(
        args,
        vec!["-Xmx2G", "-Djava.library.path=N", "-cp", "cp", "net.minecraft.client.main.Main", "--version", "1.20.1", "--gameDir", "G:\\My Game"]
    );
    let only_path = launch_arguments(Some("-Djava.library.path=foo"), "N", "cp", &m, "u", "t", "i", "G", "A");
    assert_eq!(only_path[0], "-Xmx2G");
    assert_eq!(only_path[1], "-Djava.library.path=N");
}

#[test]
fn natives_folder_uses_first_eight_uuid_characters() {
    assert_eq!(
        natives_dir("T:\\tmp", "1234-5678-9abc-def0"),
        "T:\\tmp\\lightning_natives_12345678"
    );
    assert_eq!(natives_dir("T:\\tmp", "ab-c"), "T:\\tmp\\lightning_natives_abc");
}

#[test]
fn native_library_entries() {
    assert!(is_native_library_entry("lwjgl.dll", false));
    assert!(is_native_library_entry("linux/liblwjgl.so", false));
    assert!(is_native_library_entry("macos/liblwjgl.dylib", false));
    assert!(!is_native_library_entry("META-INF/MANIFEST.MF", false));
    assert!(!is_native_library_entry("folder.dll", true));
}

#[test]
fn launch_log_text() {
    let args = vec!["-Xmx2G".to_string(), "-cp".to_string()];
    assert_eq!(
        launch_log_entry("J:\\java.exe", 3, &args),
        "--- Minecraft Direct Launch ---\nJava: J:\\java.exe\nLibraries: 3\nCommand:\n\"J:\\java.exe\" -Xmx2G -cp\n\n"
    );
}

#[test]
fn java_candidates_in_order() {
    assert_eq!(
        java_candidates(Some("J"), Some("H"), Some("P1;P2")),
        vec![
            "J\\bin\\javaw.exe",
            "J\\bin\\java.exe",
            "J\\javaw.exe",
            "J\\java.exe",
            "H\\bin\\javaw.exe",
            "H\\bin\\java.exe",
            "P1\\javaw.exe",
            "P1\\java.exe",
            "P2\\javaw.exe",
            "P2\\java.exe",
        ]
    );
    assert!(java_candidates(None, None, None).is_empty());
}

#[test]
fn java_not_found_error() {
    assert_eq!(
        find_java(Some("surely-missing-lightning-java"), None, None),
        Err("Could not find Java. Set a Java path in the profile or install the JDK/JRE.".to_string())
    );
}

#[test]
fn java_path_that_is_a_file_is_used() {
    // A file that every Unix-like test machine has.
    assert_eq!(find_java(Some("/etc/passwd"), None, None), Ok("/etc/passwd".to_string()));
}

#[test]
fn auth_defaults() {
    assert_eq!(
        auth_values(None),
        ("Player".to_string(), "0".to_string(), "0".to_string())
    );
    let partial = AuthAccount { display_name: Some("Alex".to_string()), access_token: None, uuid: Some("u".to_string()) };
    assert_eq!(auth_values(Some(partial)), ("Alex".to_string(), "0".to_string(), "u".to_string()));
}

#[test]
fn windowed_mode_patch() {
    assert_eq!(
        windowed_options("fov:70\nfullscreen:true\n"),
        Some("fov:70\nfullscreen:false\n".to_string())
    );
    assert_eq!(windowed_options("fullscreen:false\n"), None);
}

#[test]
fn launcher_path_checks() {
    assert_eq!(check_launcher_path(""), Err("No launcher path set.".to_string()));
    let missing = "no-such-launcher.exe";
    assert_eq!(check_launcher_path(missing), Err(format!("File not found: {missing}")));
    assert_eq!(check_launcher_path("."), Ok(()));
}

#[test]
fn launcher_places() {
    let known = known_launcher_paths();
    assert_eq!(known.len(), 4);
    assert_eq!(known[0], "C:\\Program Files (x86)\\Minecraft Launcher\\MinecraftLauncher.exe");
    assert_eq!(
        launcher_exe_candidates("W:\\pkg"),
        vec!["W:\\pkg\\MinecraftLauncher.exe", "W:\\pkg\\minecraft-launcher.exe"]
    );
    let dirs = vec!["Microsoft.4297127D64EC6_minecraft".to_string(), "Other".to_string()];
    let all = launcher_candidates(&dirs);
    assert_eq!(all.len(), 6);
    assert_eq!(all[..4], known[..]);
    assert_eq!(
        all[4],
        "C:\\Program Files\\WindowsApps\\Microsoft.4297127D64EC6_minecraft\\MinecraftLauncher.exe"
    );
    assert_eq!(
        all[5],
        "C:\\Program Files\\WindowsApps\\Microsoft.4297127D64EC6_minecraft\\minecraft-launcher.exe"
    );
}

#[test]
fn auth_data_of_the_selected_account() {
    let text = r#"{
        "selectedUser": {"account": "abc", "profile": "p"},
        "authenticationDatabase": {
            "abc": {"displayName": "Alex", "accessToken": "tok", "uuid": "u-1"},
            "def": {"displayName": "Other"}
        }
    }"#;
    assert_eq!(auth_data_from_text(text), Ok(("Alex".to_string(), "tok".to_string(), "u-1".to_string())));
}

#[test]
fn auth_data_stand_ins() {
    let partial = r#"{"selectedUser": {"account": "x"}, "authenticationDatabase": {"x": {"uuid": 5}}}"#;
    assert_eq!(auth_data_from_text(partial), Ok(("Player".to_string(), "0".to_string(), "0".to_string())));
    let none_selected = r#"{"authenticationDatabase": {"x": {"displayName": "A"}}}"#;
    assert_eq!(auth_data_from_text(none_selected), Ok(("Player".to_string(), "0".to_string(), "0".to_string())));
    let empty_id = r#"{"selectedUser": {}, "authenticationDatabase": {"": {"displayName": "Blank"}}}"#;
    assert_eq!(auth_data_from_text(empty_id), Ok(("Blank".to_string(), "0".to_string(), "0".to_string())));
    let missing = r#"{"selectedUser": {"account": "nope"}, "authenticationDatabase": {}}"#;
    assert_eq!(auth_data_from_text(missing), Ok(("Player".to_string(), "0".to_string(), "0".to_string())));
}

#[test]
fn auth_data_parse_error() {
    let r = auth_data_from_text("{ not json");
    let e = r.expect_err("not JSON");
    assert!(e.starts_with("Failed to parse auth data: "));
    assert!(e.len() > "Failed to parse auth data: ".len());
}

#[test]
fn java_choice_prefers_the_profile_file() {
    let not_found = Err("Could not find Java. Set a Java path in the profile or install the JDK/JRE.".to_string());
    assert_eq!(pick_java(Some("J:\\java.exe"), true, Some("P\\javaw.exe".to_string())), Ok("J:\\java.exe".to_string()));
    assert_eq!(pick_java(Some("J"), false, Some("J\\bin\\javaw.exe".to_string())), Ok("J\\bin\\javaw.exe".to_string()));
    assert_eq!(pick_java(None, true, Some("P\\java.exe".to_string())), Ok("P\\java.exe".to_string()));
    assert_eq!(pick_java(Some("J"), false, None), not_found.clone());
    assert_eq!(pick_java(None, false, None), not_found);
}
