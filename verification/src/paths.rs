//! Windows-style paths held as strings, and the folders the manager works in.
use vstd::prelude::*;
use crate::mods::is_minecraft_name;
use crate::text::{chars_of, contains_spec, lowercase_of, push_char, trim, trim_spec};

verus! {

/// `\` or `/`, the separators of a Windows path.
pub open spec fn is_separator(c: char) -> bool {
    c == '\\' || c == '/'
}

/// `s` starts with a drive prefix: an ASCII letter and `:` (`C:`).
pub open spec fn has_drive(s: Seq<char>) -> bool {
    s.len() >= 2 && s[1] == ':' && (('a' <= s[0] && s[0] <= 'z') || ('A' <= s[0] && s[0] <= 'Z'))
}

/// `s` starts at a root: its first character is a separator (`\x`, `/x`).
pub open spec fn has_root_start(s: Seq<char>) -> bool {
    s.len() > 0 && is_separator(s[0])
}

/// A segment that does not simply extend a path: it has a drive or starts at a root.
pub open spec fn is_absolute_segment(seg: Seq<char>) -> bool {
    has_drive(seg) || has_root_start(seg)
}

/// The drive prefix of `base` (`C:`), or nothing.
pub open spec fn drive_of(base: Seq<char>) -> Seq<char> {
    if has_drive(base) {
        base.take(2)
    } else {
        Seq::empty()
    }
}

/// `base` extended by `seg`, as `PathBuf::join` does on Windows for drive-letter paths: a
/// segment with a drive replaces the base; a segment starting at a root keeps only the
/// base's drive; otherwise one `\` goes between them, unless the base is empty, ends with a
/// separator, or is a bare drive (`D:` and `x` give `D:x`). UNC and verbatim prefixes
/// (`\\server\share`, `\\?\`) are not told apart: such a segment counts as starting at a
/// root, and such a base as having no drive.
pub open spec fn join_path_spec(base: Seq<char>, seg: Seq<char>) -> Seq<char> {
    if has_drive(seg) {
        seg
    } else if has_root_start(seg) {
        drive_of(base) + seg
    } else if base.len() == 0 || is_separator(base.last()) || (base.len() == 2 && has_drive(base)) {
        base + seg
    } else {
        base + seq!['\\'] + seg
    }
}

/// `base` extended by the path segment `seg`.
pub fn join_path(base: &str, seg: &str) -> (res: String)
    ensures
        res@ == join_path_spec(base@, seg@),
{
    let b = chars_of(base);
    let s = chars_of(seg);
    let seg_drive = s.len() >= 2 && s[1] == ':' && (('a' <= s[0] && s[0] <= 'z') || ('A' <= s[0]
        && s[0] <= 'Z'));
    let seg_root = s.len() > 0 && (s[0] == '\\' || s[0] == '/');
    let base_drive = b.len() >= 2 && b[1] == ':' && (('a' <= b[0] && b[0] <= 'z') || ('A' <= b[0]
        && b[0] <= 'Z'));
    let mut res = String::new();
    if seg_drive {
    } else if seg_root {
        if base_drive {
            push_char(&mut res, b[0]);
            push_char(&mut res, b[1]);
            assert(res@ =~= b@.take(2));
        }
    } else {
        res.append(base);
        if b.len() > 0 && !(b[b.len() - 1] == '\\' || b[b.len() - 1] == '/') && !(b.len() == 2
            && base_drive) {
            push_char(&mut res, '\\');
        }
    }
    res.append(seg);
    res
}

/// A relative segment joined to a non-empty base keeps the base as a prefix and the
/// segment as a suffix.
pub proof fn lemma_join_relative(base: Seq<char>, seg: Seq<char>)
    requires
        !is_absolute_segment(seg),
        base.len() > 0,
    ensures
        base.is_prefix_of(join_path_spec(base, seg)),
        join_path_spec(base, seg).len() >= base.len() + seg.len(),
        join_path_spec(base, seg).skip(join_path_spec(base, seg).len() - seg.len()) == seg,
{
    let j = join_path_spec(base, seg);
    assert(j.skip(j.len() - seg.len()) =~= seg);
}

/// `Path::exists`: whether the file system holds an entry at `p`. It reads the disk, so
/// nothing is stated of the answer.
#[verifier::external_body]
pub(crate) fn path_exists(p: &str) -> bool {
    std::path::Path::new(p).exists()
}

/// `Path::is_file`: whether the file system holds a regular file at `p`. It reads the disk,
/// so nothing is stated of the answer.
#[verifier::external_body]
pub(crate) fn path_is_file(p: &str) -> bool {
    std::path::Path::new(p).is_file()
}

/// `dirs::data_dir`: the user's roaming application-data folder, if the system names one.
/// It depends on the user and the machine, so nothing is stated of it.
#[verifier::external_body]
fn data_dir() -> Option<String> {
    dirs::data_dir().map(|p| p.to_string_lossy().to_string())
}

/// `dirs::data_local_dir`: the user's local application-data folder, if the system names
/// one. It depends on the user and the machine, so nothing is stated of it.
#[verifier::external_body]
fn data_local_dir() -> Option<String> {
    dirs::data_local_dir().map(|p| p.to_string_lossy().to_string())
}

/// The views of an optional string.
pub open spec fn opt_view(o: Option<String>) -> Option<Seq<char>> {
    match o {
        Some(s) => Some(s@),
        None => None,
    }
}

/// The roaming folder used when the system names none.
pub open spec fn default_roaming() -> Seq<char> {
    "C:\\Users\\Default\\AppData\\Roaming"@
}

/// The roaming folder: the one the system names, else the default user's.
pub open spec fn roaming_root(data: Option<Seq<char>>) -> Seq<char> {
    match data {
        Some(d) => d,
        None => default_roaming(),
    }
}

/// `.minecraft` in the roaming folder.
pub open spec fn minecraft_dir_from(data: Option<Seq<char>>) -> Seq<char> {
    join_path_spec(roaming_root(data), ".minecraft"@)
}

/// `p` is the `.minecraft` folder for some answer of the system about the roaming folder.
pub open spec fn is_minecraft_dir(p: Seq<char>) -> bool {
    exists|data: Option<Seq<char>>| p == minecraft_dir_from(data)
}

/// The roaming folder for the system's answer `data`.
pub fn roaming_dir_from(data: Option<String>) -> (res: String)
    ensures
        res@ == roaming_root(opt_view(data)),
{
    match data {
        Some(d) => d,
        None => String::from_str("C:\\Users\\Default\\AppData\\Roaming"),
    }
}

/// The `.minecraft` folder in the user's roaming folder.
pub fn minecraft_dir() -> (res: String)
    ensures
        is_minecraft_dir(res@),
{
    let data = data_dir();
    let ghost d = opt_view(data);
    let root = roaming_dir_from(data);
    let res = join_path(&root, ".minecraft");
    assert(res@ == minecraft_dir_from(d));
    res
}

/// `name` in the `.minecraft` folder, for some answer of the system about the roaming folder.
pub open spec fn is_minecraft_entry(p: Seq<char>, name: Seq<char>) -> bool {
    exists|mc: Seq<char>| is_minecraft_dir(mc) && p == join_path_spec(mc, name)
}

fn minecraft_entry(name: &str) -> (res: String)
    ensures
        is_minecraft_entry(res@, name@),
{
    let mc = minecraft_dir();
    let res = join_path(&mc, name);
    assert(is_minecraft_dir(mc@) && res@ == join_path_spec(mc@, name@));
    res
}

/// The `mods` folder of `.minecraft`.
pub fn mods_dir() -> (res: String)
    ensures
        is_minecraft_entry(res@, "mods"@),
{
    minecraft_entry("mods")
}

/// The launcher's profile file, `launcher_profiles.json` in `.minecraft`.
pub fn profiles_path() -> (res: String)
    ensures
        is_minecraft_entry(res@, "launcher_profiles.json"@),
{
    minecraft_entry("launcher_profiles.json")
}

/// Where mods are backed up, `mods_backup` in `.minecraft`.
pub fn backup_dir() -> (res: String)
    ensures
        is_minecraft_entry(res@, "mods_backup"@),
{
    minecraft_entry("mods_backup")
}

/// The `versions` folder of `.minecraft`.
pub fn versions_dir() -> (res: String)
    ensures
        is_minecraft_entry(res@, "versions"@),
{
    minecraft_entry("versions")
}

/// The `libraries` folder of `.minecraft`.
pub fn libraries_dir() -> (res: String)
    ensures
        is_minecraft_entry(res@, "libraries"@),
{
    minecraft_entry("libraries")
}

/// The `assets` folder of `.minecraft`.
pub fn assets_dir() -> (res: String)
    ensures
        is_minecraft_entry(res@, "assets"@),
{
    minecraft_entry("assets")
}

/// The manager's settings file, `mod_manager_config.json` in `.minecraft`.
pub fn config_path() -> (res: String)
    ensures
        is_minecraft_entry(res@, "mod_manager_config.json"@),
{
    minecraft_entry("mod_manager_config.json")
}

/// The Bedrock data folder under a roaming folder:
/// `Minecraft Bedrock\Users\Shared\games\com.mojang`.
pub open spec fn bedrock_roaming_from(root: Seq<char>) -> Seq<char> {
    join_path_spec(
        join_path_spec(
            join_path_spec(
                join_path_spec(join_path_spec(root, "Minecraft Bedrock"@), "Users"@),
                "Shared"@,
            ),
            "games"@,
        ),
        "com.mojang"@,
    )
}

/// `p` is the Bedrock data folder of the roaming folder, for some answer of the system.
pub open spec fn is_bedrock_default_dir(p: Seq<char>) -> bool {
    exists|data: Option<Seq<char>>| p == bedrock_roaming_from(roaming_root(data))
}

/// The Bedrock data folder under the roaming folder `root`.
pub fn bedrock_dir_under(root: &str) -> (res: String)
    ensures
        res@ == bedrock_roaming_from(root@),
{
    let a = join_path(root, "Minecraft Bedrock");
    let b = join_path(&a, "Users");
    let c = join_path(&b, "Shared");
    let d = join_path(&c, "games");
    join_path(&d, "com.mojang")
}

/// The Bedrock data folder in the user's roaming folder.
pub fn bedrock_default_dir() -> (res: String)
    ensures
        is_bedrock_default_dir(res@),
{
    let data = data_dir();
    let ghost d = opt_view(data);
    let root = roaming_dir_from(data);
    let res = bedrock_dir_under(&root);
    assert(res@ == bedrock_roaming_from(roaming_root(d)));
    res
}

/// The Bedrock data folder of a Store package under a local application-data folder:
/// `Packages\<package>\LocalState\games\com.mojang`.
pub open spec fn package_dir_from(local: Seq<char>, package: Seq<char>) -> Seq<char> {
    join_path_spec(
        join_path_spec(
            join_path_spec(join_path_spec(join_path_spec(local, "Packages"@), package), "LocalState"@),
            "games"@,
        ),
        "com.mojang"@,
    )
}

/// The Bedrock data folder of the Store package `package` under the local folder `local`.
pub fn package_dir_under(local: &str, package: &str) -> (res: String)
    ensures
        res@ == package_dir_from(local@, package@),
{
    let a = join_path(local, "Packages");
    let b = join_path(&a, package);
    let c = join_path(&b, "LocalState");
    let d = join_path(&c, "games");
    join_path(&d, "com.mojang")
}

/// The `Packages` folder of the user's local folder, when the system names one; its
/// folders are the Store packages `find_bedrock_dir` looks through.
pub fn packages_dir() -> (res: Option<String>)
    ensures
        res matches Some(p) ==> exists|local: Seq<char>| p@ == join_path_spec(local, "Packages"@),
{
    match data_local_dir() {
        Some(local) => {
            let p = join_path(&local, "Packages");
            assert(p@ == join_path_spec(local@, "Packages"@));
            Some(p)
        },
        None => None,
    }
}

/// The Bedrock data folders of the Store packages named `names` that mention `minecraft`
/// (in any case), in order.
pub open spec fn minecraft_package_dirs(local: Seq<char>, names: Seq<Seq<char>>) -> Seq<Seq<char>>
    decreases names.len(),
{
    if names.len() == 0 {
        Seq::empty()
    } else {
        let rest = minecraft_package_dirs(local, names.drop_last());
        if contains_spec(lowercase_of(names.last()), "minecraft"@) {
            rest.push(package_dir_from(local, names.last()))
        } else {
            rest
        }
    }
}

/// Where the Bedrock data folder is looked for, in order: the roaming one; then, when there
/// is a local folder, those of the two known Store packages and those of the other packages
/// named `names` that mention `minecraft`.
pub open spec fn bedrock_candidates_spec(
    roaming: Seq<char>,
    local: Option<Seq<char>>,
    names: Seq<Seq<char>>,
) -> Seq<Seq<char>> {
    seq![roaming] + match local {
        Some(l) => seq![
            package_dir_from(l, "Microsoft.MinecraftUWP_8wekyb3d8bbwe"@),
            package_dir_from(l, "Microsoft.MinecraftWindowsBeta_8wekyb3d8bbwe"@),
        ] + minecraft_package_dirs(l, names),
        None => Seq::empty(),
    }
}

/// Where the Bedrock data folder is looked for, given the roaming Bedrock folder, the local
/// application-data folder if any, and the names of the folders in its `Packages` folder.
pub fn bedrock_candidates(roaming: &str, local: Option<&str>, package_names: &Vec<String>) -> (res:
    Vec<String>)
    ensures
        res.deep_view() == bedrock_candidates_spec(roaming@, opt_str_view(local), package_names.deep_view()),
{
    let mut res: Vec<String> = Vec::new();
    res.push(String::from_str(roaming));
    match local {
        Some(l) => {
            res.push(package_dir_under(l, "Microsoft.MinecraftUWP_8wekyb3d8bbwe"));
            res.push(package_dir_under(l, "Microsoft.MinecraftWindowsBeta_8wekyb3d8bbwe"));
            let ghost names = package_names.deep_view();
            let ghost head = res.deep_view();
            let mut i: usize = 0;
            while i < package_names.len()
                invariant
                    i <= package_names.len(),
                    names == package_names.deep_view(),
                    res.deep_view() == head + minecraft_package_dirs(l@, names.take(i as int)),
                decreases package_names.len() - i,
            {
                proof {
                    assert(names.take(i + 1).drop_last() =~= names.take(i as int));
                    assert(names.take(i + 1).last() == package_names[i as int]@);
                }
                if is_minecraft_name(package_names[i].as_str()) {
                    let ghost before = res.deep_view();
                    let dir = package_dir_under(l, package_names[i].as_str());
                    res.push(dir);
                    proof {
                        assert(res.deep_view() =~= before.push(dir@));
                    }
                }
                i = i + 1;
            }
            assert(names.take(i as int) =~= names);
            assert(res.deep_view() =~= bedrock_candidates_spec(
                roaming@,
                opt_str_view(local),
                package_names.deep_view(),
            ));
        },
        None => {
            assert(res.deep_view() =~= bedrock_candidates_spec(
                roaming@,
                opt_str_view(local),
                package_names.deep_view(),
            ));
        },
    }
    res
}

/// The Bedrock data folder found on disk, given the names of the folders in the local
/// `Packages` folder: the first of the places of `bedrock_candidates` (for the roaming and
/// local folders the system names) that the disk shows to exist, if any.
pub fn find_bedrock_dir(package_names: &Vec<String>) -> (res: Option<String>)
    ensures
        exists|roaming: Seq<char>, local: Option<Seq<char>>, present: Seq<bool>|
            {
                &&& is_bedrock_default_dir(roaming)
                &&& present.len() == bedrock_candidates_spec(
                    roaming,
                    local,
                    package_names.deep_view(),
                ).len()
                &&& opt_view(res) == #[trigger] first_present_spec(
                    bedrock_candidates_spec(roaming, local, package_names.deep_view()),
                    present,
                )
            },
{
    let roaming = bedrock_default_dir();
    let local = data_local_dir();
    let candidates = match &local {
        Some(l) => bedrock_candidates(roaming.as_str(), Some(l.as_str()), package_names),
        None => bedrock_candidates(roaming.as_str(), None, package_names),
    };
    let ghost lv = opt_view(local);
    assert(candidates.deep_view() == bedrock_candidates_spec(roaming@, lv, package_names.deep_view()));
    let res = first_existing(&candidates);
    proof {
        let present = choose|present: Seq<bool>|
            present.len() == candidates.len() && opt_view(res) == #[trigger] first_present_spec(
                candidates.deep_view(),
                present,
            );
        assert(candidates.deep_view().len() == candidates.len());
        assert(is_bedrock_default_dir(roaming@));
        assert(opt_view(res) == first_present_spec(
            bedrock_candidates_spec(roaming@, lv, package_names.deep_view()),
            present,
        ));
    }
    res
}

/// The views of an optional string slice.
pub open spec fn opt_str_view(o: Option<&str>) -> Option<Seq<char>> {
    match o {
        Some(s) => Some(s@),
        None => None,
    }
}

/// The custom Bedrock folder, when one is set: the setting trimmed, if anything is left.
pub open spec fn custom_bedrock(custom: Option<Seq<char>>) -> Option<Seq<char>> {
    match custom {
        Some(c) => if trim_spec(c).len() > 0 {
            Some(trim_spec(c))
        } else {
            None
        },
        None => None,
    }
}

/// The Bedrock folder: the custom one when set; else the one found on disk (`detected`);
/// else the default one in the roaming folder.
pub fn bedrock_dir(custom_path: Option<&str>, detected: Option<String>) -> (res: String)
    ensures
        custom_bedrock(opt_str_view(custom_path)) matches Some(c) ==> res@ == c,
        custom_bedrock(opt_str_view(custom_path)) is None ==> match detected {
            Some(d) => res@ == d@,
            None => is_bedrock_default_dir(res@),
        },
{
    if let Some(path) = custom_path {
        let t = trim(path);
        if chars_of(&t).len() > 0 {
            return t;
        }
    }
    match detected {
        Some(d) => d,
        None => bedrock_default_dir(),
    }
}

/// `name` in the Bedrock folder chosen by `bedrock_dir`.
pub open spec fn is_bedrock_entry(
    p: Seq<char>,
    custom: Option<Seq<char>>,
    detected: Option<Seq<char>>,
    name: Seq<char>,
) -> bool {
    exists|dir: Seq<char>|
        {
            &&& p == join_path_spec(dir, name)
            &&& (custom_bedrock(custom) matches Some(c) ==> dir == c)
            &&& (custom_bedrock(custom) is None ==> match detected {
                Some(d) => dir == d,
                None => is_bedrock_default_dir(dir),
            })
        }
}

fn bedrock_entry(custom_path: Option<&str>, detected: Option<String>, name: &str) -> (res: String)
    ensures
        is_bedrock_entry(res@, opt_str_view(custom_path), opt_view(detected), name@),
{
    let ghost det = opt_view(detected);
    let dir = bedrock_dir(custom_path, detected);
    let res = join_path(&dir, name);
    assert(res@ == join_path_spec(dir@, name@));
    res
}

/// The `behavior_packs` folder of the Bedrock folder.
pub fn bedrock_behavior_packs_dir(custom_path: Option<&str>, detected: Option<String>) -> (res:
    String)
    ensures
        is_bedrock_entry(res@, opt_str_view(custom_path), opt_view(detected), "behavior_packs"@),
{
    bedrock_entry(custom_path, detected, "behavior_packs")
}

/// The `resource_packs` folder of the Bedrock folder.
pub fn bedrock_resource_packs_dir(custom_path: Option<&str>, detected: Option<String>) -> (res:
    String)
    ensures
        is_bedrock_entry(res@, opt_str_view(custom_path), opt_view(detected), "resource_packs"@),
{
    bedrock_entry(custom_path, detected, "resource_packs")
}

/// Where packs are backed up, `lightning_packs_backup` in the Bedrock folder.
pub fn bedrock_backup_dir(custom_path: Option<&str>, detected: Option<String>) -> (res: String)
    ensures
        is_bedrock_entry(
            res@,
            opt_str_view(custom_path),
            opt_view(detected),
            "lightning_packs_backup"@,
        ),
{
    bedrock_entry(custom_path, detected, "lightning_packs_backup")
}

/// `i` is the first index at which `present` holds.
pub open spec fn is_first_present(present: Seq<bool>, i: int) -> bool {
    &&& 0 <= i < present.len()
    &&& present[i]
    &&& forall|j: int| 0 <= j < i ==> !present[j]
}

/// The first of `candidates` marked `true` in `present`, if any.
pub open spec fn first_present_spec(candidates: Seq<Seq<char>>, present: Seq<bool>) -> Option<
    Seq<char>,
> {
    if exists|i: int| is_first_present(present, i) {
        Some(candidates[choose|i: int| is_first_present(present, i)])
    } else {
        None
    }
}

/// The first present candidate is at the first index marked present, and it is one of the
/// candidates.
pub proof fn lemma_first_present(candidates: Seq<Seq<char>>, present: Seq<bool>, i: int)
    requires
        present.len() == candidates.len(),
        is_first_present(present, i),
    ensures
        first_present_spec(candidates, present) == Some(candidates[i]),
        candidates.contains(candidates[i]),
{
    let k = choose|k: int| is_first_present(present, k);
    assert(is_first_present(present, k));
    if k < i {
        assert(!present[k]);
    } else if i < k {
        assert(!present[i]);
    }
}

/// The first of `candidates` whose entry in `present` is `true`, if any.
pub fn first_present(candidates: &Vec<String>, present: &Vec<bool>) -> (res: Option<String>)
    requires
        present.len() == candidates.len(),
    ensures
        opt_view(res) == first_present_spec(candidates.deep_view(), present@),
{
    let mut i: usize = 0;
    while i < candidates.len()
        invariant
            i <= candidates.len(),
            present.len() == candidates.len(),
            forall|j: int| 0 <= j < i ==> !present@[j],
        decreases candidates.len() - i,
    {
        if present[i] {
            let p = candidates[i].clone();
            proof {
                assert(is_first_present(present@, i as int));
                lemma_first_present(candidates.deep_view(), present@, i as int);
                assert(candidates.deep_view()[i as int] == candidates[i as int]@);
            }
            return Some(p);
        }
        i = i + 1;
    }
    assert(!exists|k: int| is_first_present(present@, k));
    None
}

/// The first of `candidates` that the disk shows to exist, if any. Which candidates exist
/// the disk decides: the answer is the first of them marked present by some answer of the
/// disk for each candidate, so it is one of the candidates, and an earlier one whenever the
/// disk shows that one.
pub fn first_existing(candidates: &Vec<String>) -> (res: Option<String>)
    ensures
        exists|present: Seq<bool>|
            present.len() == candidates.len() && opt_view(res) == #[trigger] first_present_spec(
                candidates.deep_view(),
                present,
            ),
        res matches Some(p) ==> exists|k: int| 0 <= k < candidates.len() && candidates[k]@ == p@,
{
    let mut present: Vec<bool> = Vec::new();
    let mut i: usize = 0;
    while i < candidates.len()
        invariant
            i <= candidates.len(),
            present.len() == i,
        decreases candidates.len() - i,
    {
        present.push(path_exists(candidates[i].as_str()));
        i = i + 1;
    }
    let res = first_present(candidates, &present);
    proof {
        if let Some(p) = &res {
            let k = choose|k: int| is_first_present(present@, k);
            lemma_first_present(candidates.deep_view(), present@, k);
            assert(candidates.deep_view()[k] == candidates[k]@);
        }
    }
    res
}

} // verus!
