use lightning_manager::arguments::{replace_placeholders, resolve_placeholder_arg};
use lightning_manager::manifest::{ArgValue, GameArg, OsDef, RuleDef};

fn fill(s: &str) -> String {
    replace_placeholders(s, "Steve", "tok", "uu-id", "G:\\game", "A:\\assets", "8", "1.20.1", "release")
}

fn resolve(arg: &GameArg) -> Option<String> {
    resolve_placeholder_arg(arg, "Steve", "tok", "uu-id", "G:\\game", "A:\\assets", "8", "1.20.1", "release")
}

#[test]
fn fills_every_placeholder() {
    assert_eq!(
        fill("--username ${auth_player_name} --accessToken ${auth_access_token} --session ${auth_session} --uuid ${auth_uuid}"),
        "--username Steve --accessToken tok --session tok --uuid uu-id"
    );
    assert_eq!(
        fill("${user_properties} ${user_type} ${game_directory} ${game_assets} ${assets_root} ${assets_index_name}"),
        "{} mojang G:\\game A:\\assets A:\\assets 8"
    );
    assert_eq!(
        fill("${version_name} ${version_type} ${natives_directory} ${classpath} ${launcher_name} ${launcher_version}"),
        "1.20.1 release {natives_dir} {classpath} lightning-manager 0.1.0"
    );
}

#[test]
fn text_without_placeholders_is_unchanged() {
    assert_eq!(fill("--demo --width 854"), "--demo --width 854");
    assert_eq!(fill("${unknown}"), "${unknown}");
}

#[test]
fn repeated_placeholders_are_all_filled() {
    assert_eq!(fill("${auth_player_name}/${auth_player_name}"), "Steve/Steve");
}

#[test]
fn plain_string_argument() {
    assert_eq!(resolve(&GameArg::Text("${version_name}".to_string())), Some("1.20.1".to_string()));
}

#[test]
fn conditional_argument_with_forbidding_rules() {
    let arg = GameArg::Conditional {
        rules: vec![RuleDef { action: "disallow".to_string(), os: Some(OsDef { name: Some("windows".to_string()) }) }],
        value: ArgValue::Text("--windowsOnlyNot".to_string()),
    };
    assert_eq!(resolve(&arg), None);
}

#[test]
fn rules_about_other_systems_do_not_forbid() {
    // A rule about another system is skipped, so the default (allowed) stands.
    let arg = GameArg::Conditional {
        rules: vec![RuleDef { action: "allow".to_string(), os: Some(OsDef { name: Some("osx".to_string()) }) }],
        value: ArgValue::Text("-XstartOnFirstThread".to_string()),
    };
    assert_eq!(resolve(&arg), Some("-XstartOnFirstThread".to_string()));
}

#[test]
fn conditional_argument_list_joined() {
    let arg = GameArg::Conditional {
        rules: Vec::new(),
        value: ArgValue::List(vec![
            Some("--width".to_string()),
            None,
            Some("${version_type}".to_string()),
        ]),
    };
    assert_eq!(resolve(&arg), Some("--width release".to_string()));
}

#[test]
fn conditional_argument_without_strings_gives_nothing() {
    let empty = GameArg::Conditional { rules: Vec::new(), value: ArgValue::List(vec![None]) };
    assert_eq!(resolve(&empty), None);
    let missing = GameArg::Conditional { rules: Vec::new(), value: ArgValue::Missing };
    assert_eq!(resolve(&missing), None);
    let other = GameArg::Conditional { rules: Vec::new(), value: ArgValue::Other };
    assert_eq!(resolve(&other), None);
    assert_eq!(resolve(&GameArg::Other), None);
}

#[test]
fn conditional_argument_allowed_here() {
    let arg = GameArg::Conditional {
        rules: vec![RuleDef { action: "allow".to_string(), os: Some(OsDef { name: Some("windows".to_string()) }) }],
        value: ArgValue::Text("--fullscreen".to_string()),
    };
    assert_eq!(resolve(&arg), Some("--fullscreen".to_string()));
}

#[test]
fn unknown_placeholders_are_left_alone() {
    assert_eq!(
        fill("--width ${resolution_width} --height ${resolution_height} --x ${auth_player_name"),
        "--width ${resolution_width} --height ${resolution_height} --x ${auth_player_name"
    );
}
