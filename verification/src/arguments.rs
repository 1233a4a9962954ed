//! Launch arguments: placeholder substitution and game-argument resolution.
use vstd::prelude::*;
use crate::manifest::{is_rule_allowed, rules_allow, ArgValue, GameArg};
use crate::text::{contains_spec, join_spec, join_strings, occurs_at, replace_spec, replace_str};

verus! {

/// `input` with the launcher's placeholders filled in, each replaced everywhere, in this
/// order: player name, access token (also as the session), UUID, empty user properties,
/// user type `mojang`, game folder, assets root (also as the legacy game assets), asset
/// index, version name and type; the natives folder and class path become `{natives_dir}`
/// and `{classpath}`; launcher name and version are filled in.
pub open spec fn placeholders_spec(
    input: Seq<char>,
    username: Seq<char>,
    token: Seq<char>,
    uuid: Seq<char>,
    game_dir: Seq<char>,
    assets_root: Seq<char>,
    asset_index: Seq<char>,
    version_name: Seq<char>,
    version_type: Seq<char>,
) -> Seq<char> {
    let s = replace_spec(input, "${auth_player_name}"@, username);
    let s = replace_spec(s, "${auth_access_token}"@, token);
    let s = replace_spec(s, "${auth_session}"@, token);
    let s = replace_spec(s, "${auth_uuid}"@, uuid);
    let s = replace_spec(s, "${user_properties}"@, "{}"@);
    let s = replace_spec(s, "${user_type}"@, "mojang"@);
    let s = replace_spec(s, "${game_directory}"@, game_dir);
    let s = replace_spec(s, "${game_assets}"@, assets_root);
    let s = replace_spec(s, "${assets_root}"@, assets_root);
    let s = replace_spec(s, "${assets_index_name}"@, asset_index);
    let s = replace_spec(s, "${version_name}"@, version_name);
    let s = replace_spec(s, "${version_type}"@, version_type);
    let s = replace_spec(s, "${natives_directory}"@, "{natives_dir}"@);
    let s = replace_spec(s, "${classpath}"@, "{classpath}"@);
    let s = replace_spec(s, "${launcher_name}"@, "lightning-manager"@);
    replace_spec(s, "${launcher_version}"@, "0.1.0"@)
}

/// `input` with the launcher's placeholders (`${auth_player_name}`, `${game_directory}`, ...)
/// filled in.
pub fn replace_placeholders(
    input: &str,
    username: &str,
    token: &str,
    uuid: &str,
    game_dir: &str,
    assets_root: &str,
    asset_index: &str,
    version_name: &str,
    version_type: &str,
) -> (res: String)
    ensures
        res@ == placeholders_spec(
            input@,
            username@,
            token@,
            uuid@,
            game_dir@,
            assets_root@,
            asset_index@,
            version_name@,
            version_type@,
        ),
{
    proof {
        reveal_strlit("${auth_player_name}");
        reveal_strlit("${auth_access_token}");
        reveal_strlit("${auth_session}");
        reveal_strlit("${auth_uuid}");
        reveal_strlit("${user_properties}");
        reveal_strlit("${user_type}");
        reveal_strlit("${game_directory}");
        reveal_strlit("${game_assets}");
        reveal_strlit("${assets_root}");
        reveal_strlit("${assets_index_name}");
        reveal_strlit("${version_name}");
        reveal_strlit("${version_type}");
        reveal_strlit("${natives_directory}");
        reveal_strlit("${classpath}");
        reveal_strlit("${launcher_name}");
        reveal_strlit("${launcher_version}");
    }
    let s = replace_str(input, "${auth_player_name}", username);
    let s = replace_str(s.as_str(), "${auth_access_token}", token);
    let s = replace_str(s.as_str(), "${auth_session}", token);
    let s = replace_str(s.as_str(), "${auth_uuid}", uuid);
    let s = replace_str(s.as_str(), "${user_properties}", "{}");
    let s = replace_str(s.as_str(), "${user_type}", "mojang");
    let s = replace_str(s.as_str(), "${game_directory}", game_dir);
    let s = replace_str(s.as_str(), "${game_assets}", assets_root);
    let s = replace_str(s.as_str(), "${assets_root}", assets_root);
    let s = replace_str(s.as_str(), "${assets_index_name}", asset_index);
    let s = replace_str(s.as_str(), "${version_name}", version_name);
    let s = replace_str(s.as_str(), "${version_type}", version_type);
    let s = replace_str(s.as_str(), "${natives_directory}", "{natives_dir}");
    let s = replace_str(s.as_str(), "${classpath}", "{classpath}");
    let s = replace_str(s.as_str(), "${launcher_name}", "lightning-manager");
    replace_str(s.as_str(), "${launcher_version}", "0.1.0")
}

/// Replacing a pattern that starts with `${` leaves a text without `${` unchanged.
proof fn lemma_replace_absent(s: Seq<char>, p: Seq<char>, r: Seq<char>)
    requires
        p.len() >= 2,
        p[0] == '$',
        p[1] == '{',
        !contains_spec(s, "${"@),
    ensures
        replace_spec(s, p, r) == s,
    decreases s.len(),
{
    reveal_strlit("${");
    if s.len() > 0 {
        if p.is_prefix_of(s) {
            assert(occurs_at(s, "${"@, 0)) by {
                assert(s.subrange(0, 2) =~= "${"@);
            }
        }
        assert(!contains_spec(s.skip(1), "${"@)) by {
            if contains_spec(s.skip(1), "${"@) {
                let i = choose|i: int| occurs_at(s.skip(1), "${"@, i);
                assert(s.subrange(i + 1, i + 3) =~= s.skip(1).subrange(i, i + 2));
                assert(occurs_at(s, "${"@, i + 1));
            }
        }
        lemma_replace_absent(s.skip(1), p, r);
        assert(seq![s[0]] + s.skip(1) =~= s);
    }
}

/// A text with no `${` in it comes back from placeholder substitution unchanged, whatever
/// values are supplied.
pub proof fn lemma_no_placeholder_unchanged(
    input: Seq<char>,
    username: Seq<char>,
    token: Seq<char>,
    uuid: Seq<char>,
    game_dir: Seq<char>,
    assets_root: Seq<char>,
    asset_index: Seq<char>,
    version_name: Seq<char>,
    version_type: Seq<char>,
)
    requires
        !contains_spec(input, "${"@),
    ensures
        placeholders_spec(
            input,
            username,
            token,
            uuid,
            game_dir,
            assets_root,
            asset_index,
            version_name,
            version_type,
        ) == input,
{
    reveal_strlit("${auth_player_name}");
    reveal_strlit("${auth_access_token}");
    reveal_strlit("${auth_session}");
    reveal_strlit("${auth_uuid}");
    reveal_strlit("${user_properties}");
    reveal_strlit("${user_type}");
    reveal_strlit("${game_directory}");
    reveal_strlit("${game_assets}");
    reveal_strlit("${assets_root}");
    reveal_strlit("${assets_index_name}");
    reveal_strlit("${version_name}");
    reveal_strlit("${version_type}");
    reveal_strlit("${natives_directory}");
    reveal_strlit("${classpath}");
    reveal_strlit("${launcher_name}");
    reveal_strlit("${launcher_version}");
    lemma_replace_absent(input, "${auth_player_name}"@, username);
    lemma_replace_absent(input, "${auth_access_token}"@, token);
    lemma_replace_absent(input, "${auth_session}"@, token);
    lemma_replace_absent(input, "${auth_uuid}"@, uuid);
    lemma_replace_absent(input, "${user_properties}"@, "{}"@);
    lemma_replace_absent(input, "${user_type}"@, "mojang"@);
    lemma_replace_absent(input, "${game_directory}"@, game_dir);
    lemma_replace_absent(input, "${game_assets}"@, assets_root);
    lemma_replace_absent(input, "${assets_root}"@, assets_root);
    lemma_replace_absent(input, "${assets_index_name}"@, asset_index);
    lemma_replace_absent(input, "${version_name}"@, version_name);
    lemma_replace_absent(input, "${version_type}"@, version_type);
    lemma_replace_absent(input, "${natives_directory}"@, "{natives_dir}"@);
    lemma_replace_absent(input, "${classpath}"@, "{classpath}"@);
    lemma_replace_absent(input, "${launcher_name}"@, "lightning-manager"@);
    lemma_replace_absent(input, "${launcher_version}"@, "0.1.0"@);
}

/// Replacing a pattern that does not occur leaves the text unchanged.
proof fn lemma_replace_not_contained(s: Seq<char>, p: Seq<char>, r: Seq<char>)
    requires
        p.len() > 0,
        !contains_spec(s, p),
    ensures
        replace_spec(s, p, r) == s,
    decreases s.len(),
{
    if s.len() > 0 {
        if p.is_prefix_of(s) {
            assert(occurs_at(s, p, 0)) by {
                assert(s.subrange(0, p.len() as int) =~= p);
            }
        }
        assert(!contains_spec(s.skip(1), p)) by {
            if contains_spec(s.skip(1), p) {
                let i = choose|i: int| occurs_at(s.skip(1), p, i);
                assert(s.subrange(i + 1, i + 1 + p.len()) =~= s.skip(1).subrange(i, i + p.len()));
                assert(occurs_at(s, p, i + 1));
            }
        }
        lemma_replace_not_contained(s.skip(1), p, r);
        assert(seq![s[0]] + s.skip(1) =~= s);
    }
}

/// `s` holds none of the placeholders the launcher fills in (it may hold others, such as
/// `${resolution_width}`).
pub open spec fn known_placeholder_free(s: Seq<char>) -> bool {
    &&& !contains_spec(s, "${auth_player_name}"@)
    &&& !contains_spec(s, "${auth_access_token}"@)
    &&& !contains_spec(s, "${auth_session}"@)
    &&& !contains_spec(s, "${auth_uuid}"@)
    &&& !contains_spec(s, "${user_properties}"@)
    &&& !contains_spec(s, "${user_type}"@)
    &&& !contains_spec(s, "${game_directory}"@)
    &&& !contains_spec(s, "${game_assets}"@)
    &&& !contains_spec(s, "${assets_root}"@)
    &&& !contains_spec(s, "${assets_index_name}"@)
    &&& !contains_spec(s, "${version_name}"@)
    &&& !contains_spec(s, "${version_type}"@)
    &&& !contains_spec(s, "${natives_directory}"@)
    &&& !contains_spec(s, "${classpath}"@)
    &&& !contains_spec(s, "${launcher_name}"@)
    &&& !contains_spec(s, "${launcher_version}"@)
}

/// A text that holds none of the placeholders the launcher fills in (unknown ones such as
/// `${resolution_width}` may be there) comes back from placeholder substitution unchanged,
/// whatever values are supplied.
pub proof fn lemma_unknown_placeholders_unchanged(
    input: Seq<char>,
    username: Seq<char>,
    token: Seq<char>,
    uuid: Seq<char>,
    game_dir: Seq<char>,
    assets_root: Seq<char>,
    asset_index: Seq<char>,
    version_name: Seq<char>,
    version_type: Seq<char>,
)
    requires
        known_placeholder_free(input),
    ensures
        placeholders_spec(
            input,
            username,
            token,
            uuid,
            game_dir,
            assets_root,
            asset_index,
            version_name,
            version_type,
        ) == input,
{
    reveal_strlit("${auth_player_name}");
    reveal_strlit("${auth_access_token}");
    reveal_strlit("${auth_session}");
    reveal_strlit("${auth_uuid}");
    reveal_strlit("${user_properties}");
    reveal_strlit("${user_type}");
    reveal_strlit("${game_directory}");
    reveal_strlit("${game_assets}");
    reveal_strlit("${assets_root}");
    reveal_strlit("${assets_index_name}");
    reveal_strlit("${version_name}");
    reveal_strlit("${version_type}");
    reveal_strlit("${natives_directory}");
    reveal_strlit("${classpath}");
    reveal_strlit("${launcher_name}");
    reveal_strlit("${launcher_version}");
    lemma_replace_not_contained(input, "${auth_player_name}"@, username);
    lemma_replace_not_contained(input, "${auth_access_token}"@, token);
    lemma_replace_not_contained(input, "${auth_session}"@, token);
    lemma_replace_not_contained(input, "${auth_uuid}"@, uuid);
    lemma_replace_not_contained(input, "${user_properties}"@, "{}"@);
    lemma_replace_not_contained(input, "${user_type}"@, "mojang"@);
    lemma_replace_not_contained(input, "${game_directory}"@, game_dir);
    lemma_replace_not_contained(input, "${game_assets}"@, assets_root);
    lemma_replace_not_contained(input, "${assets_root}"@, assets_root);
    lemma_replace_not_contained(input, "${assets_index_name}"@, asset_index);
    lemma_replace_not_contained(input, "${version_name}"@, version_name);
    lemma_replace_not_contained(input, "${version_type}"@, version_type);
    lemma_replace_not_contained(input, "${natives_directory}"@, "{natives_dir}"@);
    lemma_replace_not_contained(input, "${classpath}"@, "{classpath}"@);
    lemma_replace_not_contained(input, "${launcher_name}"@, "lightning-manager"@);
    lemma_replace_not_contained(input, "${launcher_version}"@, "0.1.0"@);
}

/// The strings among the elements of an array value, in order.
pub open spec fn strings_of(items: Seq<Option<String>>) -> Seq<Seq<char>>
    decreases items.len(),
{
    if items.len() == 0 {
        Seq::empty()
    } else {
        let rest = strings_of(items.drop_last());
        match items.last() {
            Some(s) => rest.push(s@),
            None => rest,
        }
    }
}

/// The launch argument a game-argument entry gives, placeholders filled in by `fill`: a
/// string gives itself; an object gives nothing when it has rules and they forbid it here,
/// else its string value, or the strings of its array value joined with spaces (nothing if
/// there are none); anything else gives nothing.
pub open spec fn resolve_arg_spec(arg: GameArg, fill: spec_fn(Seq<char>) -> Seq<char>) -> Option<
    Seq<char>,
> {
    match arg {
        GameArg::Text(s) => Some(fill(s@)),
        GameArg::Conditional { rules, value } => if rules.len() > 0 && !rules_allow(rules@) {
            None
        } else {
            match value {
                ArgValue::Text(s) => Some(fill(s@)),
                ArgValue::List(items) => if strings_of(items@).len() == 0 {
                    None
                } else {
                    Some(join_spec(strings_of(items@).map_values(fill), " "@))
                },
                _ => None,
            }
        },
        GameArg::Other => None,
    }
}

/// The launch argument that a game-argument entry gives, with placeholders filled in.
pub fn resolve_placeholder_arg(
    val: &GameArg,
    username: &str,
    token: &str,
    uuid: &str,
    game_dir: &str,
    assets_root: &str,
    asset_index: &str,
    version_name: &str,
    version_type: &str,
) -> (res: Option<String>)
    ensures
        match res {
            Some(r) => Some(r@),
            None => None::<Seq<char>>,
        } == resolve_arg_spec(
            *val,
            |s: Seq<char>|
                placeholders_spec(
                    s,
                    username@,
                    token@,
                    uuid@,
                    game_dir@,
                    assets_root@,
                    asset_index@,
                    version_name@,
                    version_type@,
                ),
        ),
{
    let ghost fill = |s: Seq<char>|
        placeholders_spec(
            s,
            username@,
            token@,
            uuid@,
            game_dir@,
            assets_root@,
            asset_index@,
            version_name@,
            version_type@,
        );
    match val {
        GameArg::Text(s) => Some(
            replace_placeholders(
                s.as_str(),
                username,
                token,
                uuid,
                game_dir,
                assets_root,
                asset_index,
                version_name,
                version_type,
            ),
        ),
        GameArg::Conditional { rules, value } => {
            if rules.len() > 0 && !is_rule_allowed(rules.as_slice()) {
                return None;
            }
            match value {
                ArgValue::Text(s) => Some(
                    replace_placeholders(
                        s.as_str(),
                        username,
                        token,
                        uuid,
                        game_dir,
                        assets_root,
                        asset_index,
                        version_name,
                        version_type,
                    ),
                ),
                ArgValue::List(items) => {
                    let mut parts: Vec<String> = Vec::new();
                    let mut i: usize = 0;
                    while i < items.len()
                        invariant
                            i <= items.len(),
                            forall|t: Seq<char>|
                                #[trigger] fill(t) == placeholders_spec(
                                    t,
                                    username@,
                                    token@,
                                    uuid@,
                                    game_dir@,
                                    assets_root@,
                                    asset_index@,
                                    version_name@,
                                    version_type@,
                                ),
                            parts.deep_view() == strings_of(items@.take(i as int)).map_values(fill),
                        decreases items.len() - i,
                    {
                        assert(items@.take(i + 1).drop_last() =~= items@.take(i as int));
                        let ghost before = parts.deep_view();
                        if let Some(s) = &items[i] {
                            let r = replace_placeholders(
                                s.as_str(),
                                username,
                                token,
                                uuid,
                                game_dir,
                                assets_root,
                                asset_index,
                                version_name,
                                version_type,
                            );
                            assert(fill(s@) == r@);
                            let ghost rv = r@;
                            parts.push(r);
                            assert(parts.deep_view() =~= before.push(rv));
                        }
                        assert(parts.deep_view() =~= strings_of(items@.take(i + 1)).map_values(
                            fill,
                        ));
                        i = i + 1;
                    }
                    assert(items@.take(i as int) =~= items@);
                    if parts.len() == 0 {
                        None
                    } else {
                        Some(join_strings(&parts, " "))
                    }
                },
                _ => None,
            }
        },
        GameArg::Other => None,
    }
}

} // verus!
