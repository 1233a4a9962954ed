//! Version manifests: library rules, library files, and launch arguments.
use vstd::prelude::*;
use crate::paths::{
    first_existing, first_present_spec, is_first_present, is_minecraft_entry, join_path,
    join_path_spec, lemma_first_present, libraries_dir, opt_view, path_exists, versions_dir,
};
use crate::text::{
    eq_ignore_ascii_case, eq_ignore_ascii_case_spec, join_spec, join_strings,
    replace_spec, replace_str, same_text, split_spec, split_str,
};
use crate::words::{shell_words_split, words_spec};
use vstd::utf8::encode_utf8;

verus! {

/// The operating system a rule is about.
#[derive(Clone, Debug)]
pub struct OsDef {
    pub name: Option<String>,
}

/// A rule of a library or an argument: `allow` or `disallow`, optionally for one system.
#[derive(Clone, Debug)]
pub struct RuleDef {
    pub action: String,
    pub os: Option<OsDef>,
}

/// A downloadable file of a library, by its path under `libraries`.
#[derive(Clone, Debug)]
pub struct ArtifactDef {
    pub path: String,
    pub url: Option<String>,
}

/// The files of a library: its main artifact, and native artifacts by classifier. Read from
/// a JSON object, the classifier list holds each key once (`keys_unique`), and `lookup`
/// then finds each entry's own value (`lemma_lookup_unique`).
#[derive(Clone, Debug)]
pub struct LibraryDownloadsDef {
    pub artifact: Option<ArtifactDef>,
    pub classifiers: Option<Vec<(String, ArtifactDef)>>,
}

/// A library of a version: its Maven name (`group:artifact:version[:classifier]`), files,
/// native classifiers by system (read from a JSON object, each system once, as
/// `keys_unique` says), and rules.
#[derive(Clone, Debug)]
pub struct LibraryDef {
    pub name: String,
    pub downloads: Option<LibraryDownloadsDef>,
    pub natives: Option<Vec<(String, String)>>,
    pub rules: Option<Vec<RuleDef>>,
}

/// The asset index a version uses.
#[derive(Clone, Debug)]
pub struct AssetIndexDef {
    pub id: String,
}

/// The `value` of a conditional argument.
#[derive(Clone, Debug)]
pub enum ArgValue {
    /// No `value` key.
    Missing,
    Text(String),
    /// An array; `None` stands for an element that is not a string.
    List(Vec<Option<String>>),
    /// A value of another JSON type.
    Other,
}

/// One entry of a manifest's `arguments.game` list.
#[derive(Clone, Debug)]
pub enum GameArg {
    Text(String),
    /// An object: the rules that could be read from its `rules` array, and its `value`.
    Conditional { rules: Vec<RuleDef>, value: ArgValue },
    /// A JSON value of another type.
    Other,
}

/// The `arguments` block of a manifest.
#[derive(Clone, Debug)]
pub struct ArgumentsBlock {
    pub game: Vec<GameArg>,
    pub jvm: Vec<GameArg>,
}

/// A version manifest (`versions/<id>/<id>.json`).
#[derive(Clone, Debug)]
pub struct VersionManifest {
    pub id: Option<String>,
    pub manifest_type: Option<String>,
    pub main_class: String,
    pub minecraft_arguments: Option<String>,
    pub arguments: Option<ArgumentsBlock>,
    pub libraries: Vec<LibraryDef>,
    pub assets: String,
    pub asset_index: Option<AssetIndexDef>,
    pub inherits_from: Option<String>,
}

/// A rule is about this system: it names no system, or names Windows in any ASCII case.
pub open spec fn rule_applies(rule: RuleDef) -> bool {
    match rule.os {
        Some(os) => match os.name {
            Some(n) => eq_ignore_ascii_case_spec(n@, "windows"@),
            None => true,
        },
        None => true,
    }
}

/// Whether the rules allow: the last rule about this system whose action is `allow` or
/// `disallow` decides; with none, the answer is yes.
pub open spec fn rules_allow(rules: Seq<RuleDef>) -> bool
    decreases rules.len(),
{
    if rules.len() == 0 {
        true
    } else {
        let r = rules.last();
        if rule_applies(r) && r.action@ == "allow"@ {
            true
        } else if rule_applies(r) && r.action@ == "disallow"@ {
            false
        } else {
            rules_allow(rules.drop_last())
        }
    }
}

fn rule_applies_here(rule: &RuleDef) -> (b: bool)
    ensures
        b == rule_applies(*rule),
{
    match &rule.os {
        Some(os) => match &os.name {
            Some(n) => eq_ignore_ascii_case(n.as_str(), "windows"),
            None => true,
        },
        None => true,
    }
}

/// Whether the rules allow a library or an argument on this system.
pub fn is_rule_allowed(rules: &[RuleDef]) -> (allowed: bool)
    ensures
        allowed == rules_allow(rules@),
{
    let mut allowed = true;
    let mut i: usize = 0;
    while i < rules.len()
        invariant
            i <= rules.len(),
            allowed == rules_allow(rules@.take(i as int)),
        decreases rules.len() - i,
    {
        assert(rules@.take(i + 1).drop_last() =~= rules@.take(i as int));
        assert(rules@.take(i + 1).last() == rules@[i as int]);
        if rule_applies_here(&rules[i]) {
            if same_text(rules[i].action.as_str(), "allow") {
                allowed = true;
            } else if same_text(rules[i].action.as_str(), "disallow") {
                allowed = false;
            }
        }
        i = i + 1;
    }
    assert(rules@.take(i as int) =~= rules@);
    allowed
}

/// The last rule about this system decides, whatever came before it.
pub proof fn lemma_last_rule_decides(rules: Seq<RuleDef>, rule: RuleDef)
    requires
        rule_applies(rule),
        rule.action@ == "allow"@ || rule.action@ == "disallow"@,
    ensures
        rules_allow(rules.push(rule)) == (rule.action@ == "allow"@),
{
    assert(rules.push(rule).last() == rule);
    reveal_strlit("allow");
    reveal_strlit("disallow");
}

/// A rule about another system changes nothing.
pub proof fn lemma_other_system_rule(rules: Seq<RuleDef>, rule: RuleDef)
    requires
        !rule_applies(rule),
    ensures
        rules_allow(rules.push(rule)) == rules_allow(rules),
{
    assert(rules.push(rule).drop_last() =~= rules);
}

/// The value of the first entry with key `key`.
pub open spec fn lookup<V>(entries: Seq<(String, V)>, key: Seq<char>) -> Option<V>
    decreases entries.len(),
{
    if entries.len() == 0 {
        None
    } else if entries[0].0@ == key {
        Some(entries[0].1)
    } else {
        lookup(entries.skip(1), key)
    }
}

/// No key occurs twice among the entries, as in a map.
pub open spec fn keys_unique<V>(entries: Seq<(String, V)>) -> bool {
    forall|i: int, j: int| 0 <= i < j < entries.len() ==> #[trigger] entries[i].0@ != #[trigger] entries[j].0@
}

/// With each key once, the value found under an entry's key is that entry's value, where
/// ever the entry stands: the entries behave as the map they were read from.
pub proof fn lemma_lookup_unique<V>(entries: Seq<(String, V)>, i: int)
    requires
        keys_unique(entries),
        0 <= i < entries.len(),
    ensures
        lookup(entries, entries[i].0@) == Some(entries[i].1),
    decreases i,
{
    if i > 0 {
        let rest = entries.skip(1);
        assert(entries[0].0@ != entries[i].0@);
        assert(rest[i - 1] == entries[i]);
        assert forall|a: int, b: int| 0 <= a < b < rest.len() implies #[trigger] rest[a].0@
            != #[trigger] rest[b].0@ by {
            assert(rest[a] == entries[a + 1] && rest[b] == entries[b + 1]);
        }
        lemma_lookup_unique(rest, i - 1);
    }
}

/// Index of the first entry with key `key`.
pub fn find_key<V>(entries: &Vec<(String, V)>, key: &str) -> (res: Option<usize>)
    ensures
        match res {
            Some(i) => i < entries.len() && lookup(entries@, key@) == Some(entries@[i as int].1),
            None => lookup(entries@, key@) is None,
        },
{
    let mut i: usize = 0;
    assert(entries@.skip(0) =~= entries@);
    while i < entries.len()
        invariant
            i <= entries.len(),
            lookup(entries@, key@) == lookup(entries@.skip(i as int), key@),
        decreases entries.len() - i,
    {
        assert(entries@.skip(i as int)[0] == entries@[i as int]);
        if same_text(entries[i].0.as_str(), key) {
            return Some(i);
        }
        assert(entries@.skip(i as int).skip(1) =~= entries@.skip(i + 1));
        i = i + 1;
    }
    None
}

/// The main artifact of a library, under the libraries folder `libs`.
pub open spec fn artifact_candidate(lib: LibraryDef, libs: Seq<char>) -> Option<Seq<char>> {
    match lib.downloads {
        Some(dl) => match dl.artifact {
            Some(a) => Some(join_path_spec(libs, a.path@)),
            None => None,
        },
        None => None,
    }
}

/// The Windows native artifact of a library, under the libraries folder `libs`: the
/// classifier that `natives` names for `windows`, looked up among the downloads.
pub open spec fn native_candidate(lib: LibraryDef, libs: Seq<char>) -> Option<Seq<char>> {
    match lib.downloads {
        Some(dl) => match dl.classifiers {
            Some(cls) => match lib.natives {
                Some(n) => match lookup(n@, "windows"@) {
                    Some(key) => match lookup(cls@, key@) {
                        Some(a) => Some(join_path_spec(libs, a.path@)),
                        None => None,
                    },
                    None => None,
                },
                None => None,
            },
            None => None,
        },
        None => None,
    }
}

/// The file name of a library in a Maven repository: `artifact-version[-classifier].jar`.
pub open spec fn maven_file_name(parts: Seq<Seq<char>>) -> Seq<char> {
    if parts.len() > 3 {
        parts[1] + seq!['-'] + parts[2] + seq!['-'] + parts[3] + ".jar"@
    } else {
        parts[1] + seq!['-'] + parts[2] + ".jar"@
    }
}

/// The Maven layout path of a library under `libs`, from its name
/// `group:artifact:version[:classifier]`: `group` with dots as slashes, then artifact,
/// version and file name; none for a name of fewer than three parts.
pub open spec fn maven_candidate(name: Seq<char>, libs: Seq<char>) -> Option<Seq<char>> {
    let parts = split_spec(name, ':');
    if parts.len() < 3 {
        None
    } else {
        let group = replace_spec(parts[0], "."@, "/"@);
        Some(
            join_path_spec(
                join_path_spec(join_path_spec(join_path_spec(libs, group), parts[1]), parts[2]),
                maven_file_name(parts),
            ),
        )
    }
}

/// An optional value as a sequence of at most one.
pub open spec fn opt_seq(o: Option<Seq<char>>) -> Seq<Seq<char>> {
    match o {
        Some(x) => seq![x],
        None => Seq::empty(),
    }
}

/// The paths where a library may lie under `libs`, in the order they are tried.
pub open spec fn library_candidates(lib: LibraryDef, libs: Seq<char>) -> Seq<Seq<char>> {
    opt_seq(artifact_candidate(lib, libs)) + opt_seq(native_candidate(lib, libs)) + opt_seq(
        maven_candidate(lib.name@, libs),
    )
}

/// The library's rules, if it has any, do not forbid it on this system.
pub open spec fn library_allowed(lib: LibraryDef) -> bool {
    match lib.rules {
        Some(r) => rules_allow(r@),
        None => true,
    }
}

/// The Maven layout path of the library named `name` under `libs`.
pub fn maven_path(name: &str, libs: &str) -> (res: Option<String>)
    ensures
        opt_view_string(res) == maven_candidate(name@, libs@),
{
    let parts = split_str(name, ':');
    if parts.len() < 3 {
        return None;
    }
    let ghost pv = parts.deep_view();
    assert(pv[0] == parts[0]@ && pv[1] == parts[1]@ && pv[2] == parts[2]@);
    proof {
        reveal_strlit(".");
    }
    let group = replace_str(parts[0].as_str(), ".", "/");
    let mut file = parts[1].clone();
    file.append("-");
    file.append(parts[2].as_str());
    if parts.len() > 3 {
        assert(pv[3] == parts[3]@);
        file.append("-");
        file.append(parts[3].as_str());
    }
    file.append(".jar");
    proof {
        reveal_strlit("-");
        assert("-"@ =~= seq!['-']);
    }
    let a = join_path(libs, group.as_str());
    let b = join_path(&a, parts[1].as_str());
    let c = join_path(&b, parts[2].as_str());
    let p = join_path(&c, file.as_str());
    Some(p)
}

/// The views of an optional string.
pub open spec fn opt_view_string(o: Option<String>) -> Option<Seq<char>> {
    match o {
        Some(s) => Some(s@),
        None => None,
    }
}

/// The Windows native artifact path of a library under `libs`.
pub fn native_path(lib: &LibraryDef, libs: &str) -> (res: Option<String>)
    ensures
        opt_view_string(res) == native_candidate(*lib, libs@),
{
    match &lib.downloads {
        Some(dl) => match &dl.classifiers {
            Some(cls) => match &lib.natives {
                Some(n) => match find_key(n, "windows") {
                    Some(i) => match find_key(cls, n[i].1.as_str()) {
                        Some(j) => Some(join_path(libs, cls[j].1.path.as_str())),
                        None => None,
                    },
                    None => None,
                },
                None => None,
            },
            None => None,
        },
        None => None,
    }
}

/// The paths where a library may lie under the libraries folder `libs`, in the order they
/// are tried: its main artifact, its Windows native artifact, its Maven layout path.
pub fn library_paths(lib: &LibraryDef, libs: &str) -> (res: Vec<String>)
    ensures
        res.deep_view() == library_candidates(*lib, libs@),
{
    let mut res: Vec<String> = Vec::new();
    if let Some(dl) = &lib.downloads {
        if let Some(a) = &dl.artifact {
            res.push(join_path(libs, a.path.as_str()));
        }
    }
    assert(res.deep_view() =~= opt_seq(artifact_candidate(*lib, libs@)));
    let ghost first = res.deep_view();
    if let Some(p) = native_path(lib, libs) {
        res.push(p);
    }
    assert(res.deep_view() =~= first + opt_seq(native_candidate(*lib, libs@)));
    let ghost second = res.deep_view();
    if let Some(p) = maven_path(lib.name.as_str(), libs) {
        res.push(p);
    }
    assert(res.deep_view() =~= second + opt_seq(maven_candidate(lib.name@, libs@)));
    res
}

/// The file of `lib` under the libraries folder `libs`, given the disk's answer for each of
/// its candidate paths: none when its rules forbid it here, else the first candidate
/// present.
pub open spec fn library_file_pick(lib: LibraryDef, libs: Seq<char>, present: Seq<bool>) -> Option<
    Seq<char>,
> {
    if library_allowed(lib) {
        first_present_spec(library_candidates(lib, libs), present)
    } else {
        None
    }
}

/// The file of a library under the libraries folder `libs`: none when its rules forbid it on
/// this system; else the first of its candidate paths that the disk shows to exist, if any.
pub fn library_file_under(lib: &LibraryDef, libs: &str) -> (res: Option<String>)
    ensures
        exists|present: Seq<bool>|
            present.len() == library_candidates(*lib, libs@).len() && opt_view_string(res)
                == #[trigger] library_file_pick(*lib, libs@, present),
{
    if let Some(rules) = &lib.rules {
        if !is_rule_allowed(rules.as_slice()) {
            assert(opt_view_string(None) == library_file_pick(
                *lib,
                libs@,
                Seq::new(library_candidates(*lib, libs@).len(), |i: int| false),
            ));
            return None;
        }
    }
    let candidates = library_paths(lib, libs);
    let res = first_existing(&candidates);
    proof {
        let present = choose|present: Seq<bool>|
            present.len() == candidates.len() && opt_view(res) == #[trigger] first_present_spec(
                candidates.deep_view(),
                present,
            );
        assert(candidates.deep_view().len() == candidates.len());
        assert(opt_view_string(res) == library_file_pick(*lib, libs@, present));
    }
    res
}

/// The file of a library in `.minecraft\libraries`: none when its rules forbid it on this
/// system; else the first of its candidate paths that the disk shows to exist, if any.
pub fn library_to_path(lib: &LibraryDef) -> (res: Option<String>)
    ensures
        !library_allowed(*lib) ==> res is None,
        library_allowed(*lib) ==> exists|libs: Seq<char>, present: Seq<bool>|
            {
                &&& is_minecraft_entry(libs, "libraries"@)
                &&& present.len() == library_candidates(*lib, libs).len()
                &&& opt_view_string(res) == #[trigger] first_present_spec(
                    library_candidates(*lib, libs),
                    present,
                )
            },
        res matches Some(p) ==> exists|libs: Seq<char>|
            {
                &&& is_minecraft_entry(libs, "libraries"@)
                &&& library_candidates(*lib, libs).contains(p@)
            },
{
    let libs = libraries_dir();
    let res = library_file_under(lib, libs.as_str());
    proof {
        let present = choose|present: Seq<bool>|
            present.len() == library_candidates(*lib, libs@).len() && opt_view_string(res)
                == #[trigger] library_file_pick(*lib, libs@, present);
        assert(first_present_spec(library_candidates(*lib, libs@), present) == library_file_pick(
            *lib,
            libs@,
            present,
        ) || !library_allowed(*lib));
        if let Some(p) = &res {
            let k = choose|k: int| is_first_present(present, k);
            lemma_first_present(library_candidates(*lib, libs@), present, k);
        }
    }
    res
}

/// The jar of version `id` in the versions folder `versions`: `<id>\<id>.jar`.
pub open spec fn version_jar_spec(versions: Seq<char>, id: Seq<char>) -> Seq<char> {
    join_path_spec(join_path_spec(versions, id), id + ".jar"@)
}

/// The jar of version `id` in the versions folder `versions`.
pub fn version_jar(versions: &str, id: &str) -> (res: String)
    ensures
        res@ == version_jar_spec(versions@, id@),
{
    let dir = join_path(versions, id);
    let mut file = String::from_str(id);
    file.append(".jar");
    join_path(&dir, file.as_str())
}

/// The present values of `found`, in order.
pub open spec fn somes(found: Seq<Option<Seq<char>>>) -> Seq<Seq<char>>
    decreases found.len(),
{
    if found.len() == 0 {
        Seq::empty()
    } else {
        let rest = somes(found.drop_last());
        match found.last() {
            Some(p) => rest.push(p),
            None => rest,
        }
    }
}

/// The views of optional strings.
pub open spec fn opt_views(found: Seq<Option<String>>) -> Seq<Option<Seq<char>>> {
    found.map_values(|o: Option<String>| opt_view_string(o))
}

/// A class path: the files found, in order, then the version jar if any, joined with `;`.
pub open spec fn classpath_spec(found: Seq<Option<Seq<char>>>, jar: Option<Seq<char>>) -> Seq<char> {
    join_spec(somes(found) + opt_seq(jar), ";"@)
}

/// The class path made of the library files found (`None` for a library with no file), in
/// library order, then the version jar if one was found.
pub fn classpath_from(found: &Vec<Option<String>>, jar: Option<String>) -> (res: String)
    ensures
        res@ == classpath_spec(opt_views(found@), opt_view_string(jar)),
{
    let ghost fv = opt_views(found@);
    let mut paths: Vec<String> = Vec::new();
    let mut i: usize = 0;
    while i < found.len()
        invariant
            i <= found.len(),
            fv == opt_views(found@),
            paths.deep_view() == somes(fv.take(i as int)),
        decreases found.len() - i,
    {
        proof {
            assert(fv.take(i + 1).drop_last() =~= fv.take(i as int));
            assert(fv.take(i + 1).last() == opt_view_string(found@[i as int]));
        }
        if let Some(p) = &found[i] {
            let ghost before = paths.deep_view();
            paths.push(p.clone());
            assert(paths.deep_view() =~= before.push(p@));
        }
        i = i + 1;
    }
    assert(fv.take(i as int) =~= fv);
    let ghost before = paths.deep_view();
    if let Some(j) = jar {
        let ghost jv = j@;
        paths.push(j);
        assert(paths.deep_view() =~= before + seq![jv]);
    } else {
        assert(paths.deep_view() =~= before + Seq::<Seq<char>>::empty());
    }
    join_strings(&paths, ";")
}

/// The files of `libraries` under the libraries folder `libs`, given the disk's answers for
/// the candidates of each.
pub open spec fn library_files(
    libraries: Seq<LibraryDef>,
    libs: Seq<char>,
    answers: Seq<Seq<bool>>,
) -> Seq<Option<Seq<char>>> {
    Seq::new(libraries.len(), |i: int| library_file_pick(libraries[i], libs, answers[i]))
}

/// The jar a version's class path ends with, in the versions folder `versions`, given
/// whether its own jar (`own`) and its parent's (`parent`) exist: none for a version without
/// an id; its own jar if that exists; else its parent's, if it has one and that exists.
pub open spec fn version_jar_pick(
    manifest: VersionManifest,
    versions: Seq<char>,
    own: bool,
    parent: bool,
) -> Option<Seq<char>> {
    match manifest.id {
        None => None,
        Some(id) => if own {
            Some(version_jar_spec(versions, id@))
        } else {
            match manifest.inherits_from {
                Some(p) => if parent {
                    Some(version_jar_spec(versions, p@))
                } else {
                    None
                },
                None => None,
            }
        },
    }
}

/// The class path of a version: the files of its libraries that exist, in library order,
/// then the version's jar (or, if that is missing, its parent's), joined with `;`. Which
/// files exist the disk decides: for the answers it gives, the class path is exactly that.
pub fn resolve_classpath_string(manifest: &VersionManifest) -> (res: String)
    ensures
        exists|
            libs: Seq<char>,
            versions: Seq<char>,
            answers: Seq<Seq<bool>>,
            own: bool,
            parent: bool,
        |
            {
                &&& is_minecraft_entry(libs, "libraries"@)
                &&& is_minecraft_entry(versions, "versions"@)
                &&& answers.len() == manifest.libraries.len()
                &&& forall|i: int|
                    0 <= i < answers.len() ==> #[trigger] answers[i].len() == library_candidates(
                        manifest.libraries@[i],
                        libs,
                    ).len()
                &&& res@ == #[trigger] classpath_spec(
                    library_files(manifest.libraries@, libs, answers),
                    version_jar_pick(*manifest, versions, own, parent),
                )
            },
{
    let libs = libraries_dir();
    let ghost lv = libs@;
    let mut found: Vec<Option<String>> = Vec::new();
    let ghost mut answers: Seq<Seq<bool>> = Seq::empty();
    let mut i: usize = 0;
    while i < manifest.libraries.len()
        invariant
            i <= manifest.libraries.len(),
            lv == libs@,
            found.len() == i,
            answers.len() == i,
            forall|k: int|
                0 <= k < i ==> #[trigger] answers[k].len() == library_candidates(
                    manifest.libraries@[k],
                    lv,
                ).len(),
            forall|k: int|
                0 <= k < i ==> #[trigger] opt_views(found@)[k] == library_file_pick(
                    manifest.libraries@[k],
                    lv,
                    answers[k],
                ),
        decreases manifest.libraries.len() - i,
    {
        let r = library_file_under(&manifest.libraries[i], libs.as_str());
        let ghost present = choose|present: Seq<bool>|
            present.len() == library_candidates(manifest.libraries@[i as int], lv).len()
                && opt_view_string(r) == #[trigger] library_file_pick(
                manifest.libraries@[i as int],
                lv,
                present,
            );
        let ghost rv = opt_view_string(r);
        let ghost before = found@;
        let ghost before_answers = answers;
        found.push(r);
        proof {
            answers = answers.push(present);
            assert forall|k: int| 0 <= k < i + 1 implies #[trigger] opt_views(found@)[k]
                == library_file_pick(manifest.libraries@[k], lv, answers[k]) by {
                if k < i {
                    assert(found@[k] == before[k]);
                    assert(opt_views(found@)[k] == opt_views(before)[k]);
                    assert(answers[k] == before_answers[k]);
                } else {
                    assert(opt_views(found@)[k] == rv);
                }
            }
            assert forall|k: int| 0 <= k < i + 1 implies #[trigger] answers[k].len()
                == library_candidates(manifest.libraries@[k], lv).len() by {
                if k < i {
                    assert(answers[k] == before_answers[k]);
                }
            }
        }
        i = i + 1;
    }
    let versions = versions_dir();
    let mut own_found = false;
    let mut parent_found = false;
    let mut jar: Option<String> = None;
    if let Some(version_id) = &manifest.id {
        let own = version_jar(versions.as_str(), version_id.as_str());
        if path_exists(own.as_str()) {
            own_found = true;
            jar = Some(own);
        } else if let Some(parent_id) = &manifest.inherits_from {
            let parent_jar = version_jar(versions.as_str(), parent_id.as_str());
            if path_exists(parent_jar.as_str()) {
                parent_found = true;
                jar = Some(parent_jar);
            }
        }
    }
    assert(opt_view_string(jar) == version_jar_pick(*manifest, versions@, own_found, parent_found));
    let res = classpath_from(&found, jar);
    assert(opt_views(found@) =~= library_files(manifest.libraries@, lv, answers));
    res
}

/// The Windows native jar of a library that declares natives and is allowed here, under `libs`.
pub open spec fn native_jar_candidate(lib: LibraryDef, libs: Seq<char>) -> Option<Seq<char>> {
    if lib.natives is Some && library_allowed(lib) {
        native_candidate(lib, libs)
    } else {
        None
    }
}

/// `p` is the Windows native jar of `lib` under the libraries folder.
pub open spec fn is_native_jar_for(lib: LibraryDef, p: Seq<char>) -> bool {
    exists|libs: Seq<char>|
        is_minecraft_entry(libs, "libraries"@) && #[trigger] native_jar_candidate(lib, libs) == Some(p)
}

/// The Windows native jars of a version's libraries that exist on disk, in library order:
/// for each library at most one, its native jar, and none for a library without natives
/// or not allowed here. Which jars exist the disk decides.
pub fn find_native_jars(manifest: &VersionManifest) -> (res: Vec<String>)
    ensures
        exists|found: Seq<Option<Seq<char>>>|
            {
                &&& found.len() == manifest.libraries.len()
                &&& forall|i: int|
                    0 <= i < found.len() ==> (#[trigger] found[i] matches Some(p) ==> is_native_jar_for(
                        manifest.libraries@[i],
                        p,
                    ))
                &&& res.deep_view() == somes(found)
            },
{
    let mut jars: Vec<String> = Vec::new();
    let ghost mut found: Seq<Option<Seq<char>>> = Seq::empty();
    let mut i: usize = 0;
    while i < manifest.libraries.len()
        invariant
            i <= manifest.libraries.len(),
            found.len() == i,
            forall|k: int|
                0 <= k < i ==> (#[trigger] found[k] matches Some(p) ==> is_native_jar_for(
                    manifest.libraries@[k],
                    p,
                )),
            jars.deep_view() == somes(found),
        decreases manifest.libraries.len() - i,
    {
        let lib = &manifest.libraries[i];
        let mut hit: Option<String> = None;
        if lib.natives.is_some() {
            let allowed = match &lib.rules {
                Some(rules) => is_rule_allowed(rules.as_slice()),
                None => true,
            };
            if allowed {
                let libs = libraries_dir();
                if let Some(p) = native_path(lib, libs.as_str()) {
                    if path_exists(p.as_str()) {
                        assert(native_jar_candidate(manifest.libraries@[i as int], libs@) == Some(p@));
                        hit = Some(p);
                    }
                }
            }
        }
        let ghost hv = opt_view_string(hit);
        let ghost before = jars.deep_view();
        proof {
            assert(found.push(hv).drop_last() =~= found);
            found = found.push(hv);
        }
        if let Some(p) = hit {
            jars.push(p);
            assert(jars.deep_view() =~= before.push(hv->0));
        }
        i = i + 1;
    }
    jars
}

/// `args` holds first the given words as plain strings, then `rest`.
pub open spec fn words_then(args: Seq<GameArg>, words: Seq<Seq<char>>, rest: Seq<GameArg>) -> bool {
    &&& args.len() == words.len() + rest.len()
    &&& forall|i: int| 0 <= i < words.len() ==> (#[trigger] args[i] matches GameArg::Text(s) && s@ == words[i])
    &&& forall|i: int| 0 <= i < rest.len() ==> #[trigger] args[words.len() + i] == rest[i]
}

/// A child manifest completed from its parent (`inheritsFrom`): the parent's libraries come
/// first; the child's assets and asset index win, the parent's fill in when the child has
/// none. A child with an `arguments` block and no `minecraftArguments` gets the parent's
/// `minecraftArguments` split into words in front of its own game arguments (and no JVM
/// arguments); a child with neither takes both from the parent.
pub fn merge_parent(child: VersionManifest, parent: VersionManifest) -> (res: VersionManifest)
    ensures
        res.id == child.id,
        res.manifest_type == child.manifest_type,
        res.main_class == child.main_class,
        res.inherits_from == child.inherits_from,
        res.libraries@ == parent.libraries@ + child.libraries@,
        res.assets == (if child.assets@.len() == 0 { parent.assets } else { child.assets }),
        res.asset_index == (if child.asset_index is None {
            parent.asset_index
        } else {
            child.asset_index
        }),
        child.minecraft_arguments is Some ==> res.minecraft_arguments == child.minecraft_arguments
            && res.arguments == child.arguments,
        child.minecraft_arguments is None && child.arguments is None ==> res.minecraft_arguments
            == parent.minecraft_arguments && res.arguments == parent.arguments,
        child.minecraft_arguments is None && child.arguments is Some
            && parent.minecraft_arguments is None ==> res.minecraft_arguments is None
            && res.arguments == child.arguments,
        child.minecraft_arguments is None && child.arguments is Some
            && parent.minecraft_arguments is Some ==> res.minecraft_arguments is None && ({
            let pm = parent.minecraft_arguments->0;
            let ca = child.arguments->0;
            &&& res.arguments is Some
            &&& words_then(
                res.arguments->0.game@,
                words_spec(encode_utf8(pm@)),
                ca.game@,
            )
            &&& res.arguments->0.jvm@.len() == 0
        }),
{
    let VersionManifest {
        id,
        manifest_type,
        main_class,
        minecraft_arguments,
        arguments,
        libraries,
        assets,
        asset_index,
        inherits_from,
    } = child;
    let mut child_libs = libraries;
    let mut merged_libs = parent.libraries;
    let ghost pl = merged_libs@;
    let ghost cl = child_libs@;
    merged_libs.append(&mut child_libs);
    let assets = if assets.as_str().is_empty() { parent.assets } else { assets };
    let asset_index = if asset_index.is_none() { parent.asset_index } else { asset_index };
    let mut minecraft_arguments = minecraft_arguments;
    let mut arguments = arguments;
    if arguments.is_some() && minecraft_arguments.is_none() {
        if let Some(parent_mc) = &parent.minecraft_arguments {
            let words = shell_words_split(parent_mc.as_str());
            let mut combined: Vec<GameArg> = Vec::new();
            let mut i: usize = 0;
            while i < words.len()
                invariant
                    i <= words.len(),
                    combined.len() == i,
                    forall|k: int| 0 <= k < i ==> (#[trigger] combined@[k] matches GameArg::Text(s)
                        && s@ == words@[k]@),
                decreases words.len() - i,
            {
                combined.push(GameArg::Text(words[i].clone()));
                i = i + 1;
            }
            let ghost n = combined.len();
            let ghost prefix = combined@;
            let old_args = arguments.unwrap();
            let mut game = old_args.game;
            let ghost cg = game@;
            combined.append(&mut game);
            proof {
                assert forall|k: int| 0 <= k < words.len() implies (#[trigger] combined@[k] matches GameArg::Text(s)
                    && s@ == words_spec(encode_utf8(parent_mc@))[k]) by {
                    assert(combined@[k] == prefix[k]);
                    assert(words.deep_view()[k] == words@[k]@);
                }
                assert forall|k: int| 0 <= k < cg.len() implies #[trigger] combined@[words_spec(
                    encode_utf8(parent_mc@),
                ).len() + k] == cg[k] by {
                    assert(words.deep_view().len() == words.len());
                }
            }
            arguments = Some(ArgumentsBlock { game: combined, jvm: Vec::new() });
        }
    }
    if minecraft_arguments.is_none() && arguments.is_none() {
        minecraft_arguments = parent.minecraft_arguments;
        arguments = parent.arguments;
    }
    VersionManifest {
        id,
        manifest_type,
        main_class,
        minecraft_arguments,
        arguments,
        libraries: merged_libs,
        assets,
        asset_index,
        inherits_from,
    }
}

} // verus!
