//! Launching: Java, the command line of a direct launch, and the launcher.
use vstd::prelude::*;
use crate::arguments::{placeholders_spec, replace_placeholders, resolve_arg_spec, resolve_placeholder_arg};
use crate::manifest::{find_key, lookup, GameArg, VersionManifest};
use crate::paths::{
    first_existing, first_present_spec, join_path, join_path_spec, opt_str_view, opt_view,
    path_exists, path_is_file,
};
use crate::text::{
    chars_of, contains_spec, contains_str, decimal_digits, join_spec, join_strings, pad_decimal,
    push_char, replace_spec, replace_str, split_spec, split_str, starts_with_str,
};
use crate::mods::is_minecraft_name;
use crate::text::lowercase_of;
use crate::words::{shell_words_split, words_spec};
use vstd::utf8::encode_utf8;

verus! {

/// The words that do not start with `-Djava.library.path` (the launcher sets that one).
pub open spec fn without_library_path(ws: Seq<Seq<char>>) -> Seq<Seq<char>>
    decreases ws.len(),
{
    if ws.len() == 0 {
        Seq::empty()
    } else {
        let rest = without_library_path(ws.drop_last());
        if "-Djava.library.path"@.is_prefix_of(ws.last()) {
            rest
        } else {
            rest.push(ws.last())
        }
    }
}

/// The memory and custom JVM arguments: the profile's Java arguments split into words, less
/// any `-Djava.library.path` ones; `-Xmx2G` when that leaves none or there are none.
pub open spec fn custom_jvm_args(java_args: Option<Seq<char>>) -> Seq<Seq<char>> {
    match java_args {
        Some(j) => {
            let c = without_library_path(words_spec(encode_utf8(j)));
            if c.len() == 0 {
                seq!["-Xmx2G"@]
            } else {
                c
            }
        },
        None => seq!["-Xmx2G"@],
    }
}

/// The profile's own arguments never set the natives folder: whatever the profile's Java
/// arguments say, no word kept from them starts with `-Djava.library.path`, so the one the
/// launcher adds is the only one.
pub proof fn lemma_custom_args_leave_library_path(java_args: Option<Seq<char>>)
    ensures
        forall|k: int|
            0 <= k < custom_jvm_args(java_args).len() ==> !"-Djava.library.path"@.is_prefix_of(
                #[trigger] custom_jvm_args(java_args)[k],
            ),
{
    reveal_strlit("-Xmx2G");
    reveal_strlit("-Djava.library.path");
    if let Some(j) = java_args {
        lemma_without_library_path(words_spec(encode_utf8(j)));
    }
}

proof fn lemma_without_library_path(ws: Seq<Seq<char>>)
    ensures
        forall|k: int|
            0 <= k < without_library_path(ws).len() ==> !"-Djava.library.path"@.is_prefix_of(
                #[trigger] without_library_path(ws)[k],
            ),
    decreases ws.len(),
{
    if ws.len() > 0 {
        let rest = without_library_path(ws.drop_last());
        lemma_without_library_path(ws.drop_last());
        let out = without_library_path(ws);
        assert forall|k: int| 0 <= k < out.len() implies !"-Djava.library.path"@.is_prefix_of(
            #[trigger] out[k],
        ) by {
            if k < rest.len() {
                assert(out[k] == rest[k]);
            }
        }
    }
}

/// The words of the launch arguments the game-argument entries give, in order.
pub open spec fn game_arg_words(args: Seq<GameArg>, fill: spec_fn(Seq<char>) -> Seq<char>) -> Seq<
    Seq<char>,
>
    decreases args.len(),
{
    if args.len() == 0 {
        Seq::empty()
    } else {
        let rest = game_arg_words(args.drop_last(), fill);
        match resolve_arg_spec(args.last(), fill) {
            Some(a) => rest + words_spec(encode_utf8(a)),
            None => rest,
        }
    }
}

/// The asset index a manifest names, else its `assets` name.
pub open spec fn asset_index_name(manifest: VersionManifest) -> Seq<char> {
    match manifest.asset_index {
        Some(a) => a.id@,
        None => manifest.assets@,
    }
}

/// The version's name, `unknown` when the manifest has no id.
pub open spec fn version_name_of(manifest: VersionManifest) -> Seq<char> {
    match manifest.id {
        Some(i) => i@,
        None => "unknown"@,
    }
}

/// The version's type, `release` when the manifest names none.
pub open spec fn version_type_of(manifest: VersionManifest) -> Seq<char> {
    match manifest.manifest_type {
        Some(t) => t@,
        None => "release"@,
    }
}

/// Placeholder substitution with the values of one launch.
pub open spec fn launch_fill(
    manifest: VersionManifest,
    username: Seq<char>,
    token: Seq<char>,
    uuid: Seq<char>,
    game_dir: Seq<char>,
    assets_root: Seq<char>,
) -> spec_fn(Seq<char>) -> Seq<char> {
    |s: Seq<char>|
        placeholders_spec(
            s,
            username,
            token,
            uuid,
            game_dir,
            assets_root,
            asset_index_name(manifest),
            version_name_of(manifest),
            version_type_of(manifest),
        )
}

/// The game's arguments: from the `arguments` block if there is one, else the
/// `minecraftArguments` string with placeholders filled and split into words.
pub open spec fn game_args_spec(manifest: VersionManifest, fill: spec_fn(Seq<char>) -> Seq<char>) -> Seq<
    Seq<char>,
> {
    match manifest.arguments {
        Some(a) => game_arg_words(a.game@, fill),
        None => match manifest.minecraft_arguments {
            Some(m) => words_spec(encode_utf8(fill(m@))),
            None => Seq::empty(),
        },
    }
}

/// The arguments Java is started with for a direct launch: the custom JVM arguments, the
/// natives folder as `-Djava.library.path`, `-cp` and the class path, the main class, then
/// the game's arguments.
pub open spec fn launch_args_spec(
    java_args: Option<Seq<char>>,
    natives_dir: Seq<char>,
    classpath: Seq<char>,
    manifest: VersionManifest,
    fill: spec_fn(Seq<char>) -> Seq<char>,
) -> Seq<Seq<char>> {
    custom_jvm_args(java_args) + seq![
        "-Djava.library.path="@ + natives_dir,
        "-cp"@,
        classpath,
        manifest.main_class@,
    ] + game_args_spec(manifest, fill)
}

fn append_words(out: &mut Vec<String>, text: &str)
    ensures
        final(out).deep_view() == old(out).deep_view() + words_spec(encode_utf8(text@)),
{
    let words = shell_words_split(text);
    let ghost start = out.deep_view();
    let mut i: usize = 0;
    while i < words.len()
        invariant
            i <= words.len(),
            out.deep_view() == start + words.deep_view().take(i as int),
        decreases words.len() - i,
    {
        let ghost before = out.deep_view();
        out.push(words[i].clone());
        assert(words.deep_view()[i as int] == words[i as int]@);
        assert(out.deep_view() =~= before.push(words[i as int]@));
        assert(words.deep_view().take(i + 1) =~= words.deep_view().take(i as int).push(
            words.deep_view()[i as int],
        ));
        i = i + 1;
    }
    assert(words.deep_view().take(i as int) =~= words.deep_view());
}

/// The arguments Java is started with for a direct launch of `manifest`, given the profile's
/// Java arguments, the natives folder, the class path and the values of the placeholders.
pub fn launch_arguments(
    java_args: Option<&str>,
    natives_dir: &str,
    classpath: &str,
    manifest: &VersionManifest,
    username: &str,
    token: &str,
    uuid: &str,
    game_dir: &str,
    assets_root: &str,
) -> (res: Vec<String>)
    ensures
        res.deep_view() == launch_args_spec(
            match java_args {
                Some(j) => Some(j@),
                None => None,
            },
            natives_dir@,
            classpath@,
            *manifest,
            launch_fill(*manifest, username@, token@, uuid@, game_dir@, assets_root@),
        ),
{
    let ghost fill = launch_fill(*manifest, username@, token@, uuid@, game_dir@, assets_root@);
    let asset_index = match &manifest.asset_index {
        Some(a) => a.id.clone(),
        None => manifest.assets.clone(),
    };
    let version_name = match &manifest.id {
        Some(i) => i.clone(),
        None => String::from_str("unknown"),
    };
    let version_type = match &manifest.manifest_type {
        Some(t) => t.clone(),
        None => String::from_str("release"),
    };
    let mut args: Vec<String> = Vec::new();
    let mut pushed_custom = false;
    if let Some(j) = java_args {
        let parsed = shell_words_split(j);
        let ghost pv = parsed.deep_view();
        let mut i: usize = 0;
        while i < parsed.len()
            invariant
                i <= parsed.len(),
                pv == parsed.deep_view(),
                args.deep_view() == without_library_path(pv.take(i as int)),
            decreases parsed.len() - i,
        {
            assert(pv.take(i + 1).drop_last() =~= pv.take(i as int));
            assert(pv[i as int] == parsed[i as int]@);
            let ghost before = args.deep_view();
            if !starts_with_str(parsed[i].as_str(), "-Djava.library.path") {
                args.push(parsed[i].clone());
                assert(args.deep_view() =~= before.push(parsed[i as int]@));
            }
            i = i + 1;
        }
        assert(pv.take(i as int) =~= pv);
        pushed_custom = args.len() > 0;
    }
    if !pushed_custom {
        args.push(String::from_str("-Xmx2G"));
        assert(args.deep_view() =~= seq!["-Xmx2G"@]);
    }
    assert(args.deep_view() == custom_jvm_args(
        match java_args {
            Some(j) => Some(j@),
            None => None,
        },
    ));
    let ghost custom = args.deep_view();
    let mut lib_path = String::from_str("-Djava.library.path=");
    lib_path.append(natives_dir);
    args.push(lib_path);
    args.push(String::from_str("-cp"));
    args.push(String::from_str(classpath));
    args.push(manifest.main_class.clone());
    assert(args.deep_view() =~= custom + seq![
        "-Djava.library.path="@ + natives_dir@,
        "-cp"@,
        classpath@,
        manifest.main_class@,
    ]);
    let ghost head = args.deep_view();
    if let Some(block) = &manifest.arguments {
        let mut i: usize = 0;
        while i < block.game.len()
            invariant
                i <= block.game.len(),
                forall|t: Seq<char>|
                    #[trigger] fill(t) == placeholders_spec(
                        t,
                        username@,
                        token@,
                        uuid@,
                        game_dir@,
                        assets_root@,
                        asset_index@,
                        version_name@,
                        version_type@,
                    ),
                args.deep_view() == head + game_arg_words(block.game@.take(i as int), fill),
            decreases block.game.len() - i,
        {
            assert(block.game@.take(i + 1).drop_last() =~= block.game@.take(i as int));
            assert(block.game@.take(i + 1).last() == block.game@[i as int]);
            let resolved = resolve_placeholder_arg(
                &block.game[i],
                username,
                token,
                uuid,
                game_dir,
                assets_root,
                asset_index.as_str(),
                version_name.as_str(),
                version_type.as_str(),
            );
            assert((|s: Seq<char>|
                placeholders_spec(
                    s,
                    username@,
                    token@,
                    uuid@,
                    game_dir@,
                    assets_root@,
                    asset_index@,
                    version_name@,
                    version_type@,
                )) =~= fill);
            if let Some(a) = resolved {
                append_words(&mut args, a.as_str());
            }
            i = i + 1;
        }
        assert(block.game@.take(i as int) =~= block.game@);
    } else if let Some(mc) = &manifest.minecraft_arguments {
        let filled = replace_placeholders(
            mc.as_str(),
            username,
            token,
            uuid,
            game_dir,
            assets_root,
            asset_index.as_str(),
            version_name.as_str(),
            version_type.as_str(),
        );
        append_words(&mut args, filled.as_str());
    } else {
        assert(args.deep_view() =~= head + Seq::<Seq<char>>::empty());
    }
    args
}

/// `s` ends with `suffix`.
pub open spec fn ends_with_spec(s: Seq<char>, suffix: Seq<char>) -> bool {
    suffix.len() <= s.len() && s.skip(s.len() - suffix.len()) == suffix
}

fn ends_with_str(s: &str, suffix: &str) -> (b: bool)
    ensures
        b == ends_with_spec(s@, suffix@),
{
    let cs = chars_of(s);
    let ps = chars_of(suffix);
    if ps.len() > cs.len() {
        return false;
    }
    let b = crate::text::matches_at(cs.as_slice(), ps.as_slice(), cs.len() - ps.len());
    proof {
        assert(cs@.subrange(cs.len() - ps.len(), cs.len() as int) =~= cs@.skip(cs.len() - ps.len()));
    }
    b
}

/// A zip entry worth extracting into the natives folder: a file named `*.dll`, `*.so` or
/// `*.dylib`.
pub fn is_native_library_entry(name: &str, is_dir: bool) -> (b: bool)
    ensures
        b == (!is_dir && (ends_with_spec(name@, ".dll"@) || ends_with_spec(name@, ".so"@)
            || ends_with_spec(name@, ".dylib"@))),
{
    !is_dir && (ends_with_str(name, ".dll") || ends_with_str(name, ".so") || ends_with_str(
        name,
        ".dylib",
    ))
}

/// The natives folder of a launch under the temporary folder `temp`:
/// `lightning_natives_` and the first eight characters of the UUID without dashes.
pub open spec fn natives_dir_spec(temp: Seq<char>, uuid: Seq<char>) -> Seq<char> {
    let id = replace_spec(uuid, "-"@, Seq::empty());
    let short = if id.len() > 8 { id.take(8) } else { id };
    join_path_spec(temp, "lightning_natives_"@ + short)
}

/// The natives folder of a launch under the temporary folder `temp`.
pub fn natives_dir(temp: &str, uuid: &str) -> (res: String)
    ensures
        res@ == natives_dir_spec(temp@, uuid@),
{
    proof {
        reveal_strlit("-");
        reveal_strlit("");
        assert(""@ =~= Seq::<char>::empty());
    }
    let id = replace_str(uuid, "-", "");
    let cs = chars_of(id.as_str());
    let mut name = String::from_str("lightning_natives_");
    let ghost prefix = name@;
    let mut k: usize = 0;
    let lim: usize = if cs.len() > 8 { 8 } else { cs.len() };
    while k < lim
        invariant
            k <= lim <= cs.len(),
            name@ == prefix + cs@.take(k as int),
        decreases lim - k,
    {
        push_char(&mut name, cs[k]);
        assert(cs@.take(k + 1) =~= cs@.take(k as int).push(cs@[k as int]));
        k = k + 1;
    }
    assert(cs@.take(cs.len() as int) =~= cs@);
    assert(name@ == "lightning_natives_"@ + (if cs@.len() > 8 { cs@.take(8) } else { cs@ }));
    join_path(temp, name.as_str())
}

/// The command line written to the launch log: the quoted Java path, then the arguments
/// separated by spaces.
pub open spec fn command_line_spec(java: Seq<char>, args: Seq<Seq<char>>) -> Seq<char> {
    seq!['"'] + java + seq!['"', ' '] + join_spec(args, " "@)
}

/// The head of the launch log.
pub open spec fn launch_log_spec(java: Seq<char>, lib_count: nat, args: Seq<Seq<char>>) -> Seq<char> {
    "--- Minecraft Direct Launch ---\nJava: "@ + java + "\nLibraries: "@ + decimal_digits(lib_count)
        + "\nCommand:\n"@ + command_line_spec(java, args) + "\n\n"@
}

/// The head of the launch log: the Java path, the number of libraries, the command line.
pub fn launch_log_entry(java: &str, lib_count: usize, args: &Vec<String>) -> (res: String)
    ensures
        res@ == launch_log_spec(java@, lib_count as nat, args.deep_view()),
{
    let mut res = String::from_str("--- Minecraft Direct Launch ---\nJava: ");
    res.append(java);
    res.append("\nLibraries: ");
    let n = pad_decimal(lib_count as u64, 0);
    res.append(n.as_str());
    res.append("\nCommand:\n");
    push_char(&mut res, '"');
    res.append(java);
    push_char(&mut res, '"');
    push_char(&mut res, ' ');
    let joined = join_strings(args, " ");
    res.append(joined.as_str());
    res.append("\n\n");
    assert(res@ =~= launch_log_spec(java@, lib_count as nat, args.deep_view()));
    res
}

/// The places Java is looked for, in order, after the profile's own path itself: in the
/// profile's Java folder `bin\javaw.exe`, `bin\java.exe`, `javaw.exe`, `java.exe`; in
/// `JAVA_HOME` `bin\javaw.exe`, `bin\java.exe`; in each `PATH` folder `javaw.exe`, `java.exe`.
pub open spec fn java_candidates_spec(
    java_dir: Option<Seq<char>>,
    java_home: Option<Seq<char>>,
    path_var: Option<Seq<char>>,
) -> Seq<Seq<char>> {
    let own = match java_dir {
        Some(d) => seq![
            join_path_spec(join_path_spec(d, "bin"@), "javaw.exe"@),
            join_path_spec(join_path_spec(d, "bin"@), "java.exe"@),
            join_path_spec(d, "javaw.exe"@),
            join_path_spec(d, "java.exe"@),
        ],
        None => Seq::empty(),
    };
    let home = match java_home {
        Some(h) => seq![
            join_path_spec(join_path_spec(h, "bin"@), "javaw.exe"@),
            join_path_spec(join_path_spec(h, "bin"@), "java.exe"@),
        ],
        None => Seq::empty(),
    };
    let on_path = match path_var {
        Some(p) => path_candidates(split_spec(p, ';')),
        None => Seq::empty(),
    };
    own + home + on_path
}

/// `javaw.exe` then `java.exe` in each folder, in order.
pub open spec fn path_candidates(dirs: Seq<Seq<char>>) -> Seq<Seq<char>>
    decreases dirs.len(),
{
    if dirs.len() == 0 {
        Seq::empty()
    } else {
        path_candidates(dirs.drop_last()) + seq![
            join_path_spec(dirs.last(), "javaw.exe"@),
            join_path_spec(dirs.last(), "java.exe"@),
        ]
    }
}

fn push_java_pair(out: &mut Vec<String>, dir: &str, sub: Option<&str>)
    ensures
        final(out).deep_view() == old(out).deep_view() + match sub {
            Some(s) => seq![
                join_path_spec(join_path_spec(dir@, s@), "javaw.exe"@),
                join_path_spec(join_path_spec(dir@, s@), "java.exe"@),
            ],
            None => seq![join_path_spec(dir@, "javaw.exe"@), join_path_spec(dir@, "java.exe"@)],
        },
{
    let base = match sub {
        Some(s) => join_path(dir, s),
        None => String::from_str(dir),
    };
    let ghost before = out.deep_view();
    out.push(join_path(base.as_str(), "javaw.exe"));
    out.push(join_path(base.as_str(), "java.exe"));
    assert(out.deep_view() =~= before + seq![
        join_path_spec(base@, "javaw.exe"@),
        join_path_spec(base@, "java.exe"@),
    ]);
}

/// The places Java is looked for, in order, after the profile's own path.
pub fn java_candidates(java_dir: Option<&str>, java_home: Option<&str>, path_var: Option<&str>) -> (res:
    Vec<String>)
    ensures
        res.deep_view() == java_candidates_spec(
            match java_dir {
                Some(d) => Some(d@),
                None => None,
            },
            match java_home {
                Some(h) => Some(h@),
                None => None,
            },
            match path_var {
                Some(p) => Some(p@),
                None => None,
            },
        ),
{
    let mut res: Vec<String> = Vec::new();
    if let Some(d) = java_dir {
        push_java_pair(&mut res, d, Some("bin"));
        push_java_pair(&mut res, d, None);
    }
    let ghost own = res.deep_view();
    if let Some(h) = java_home {
        push_java_pair(&mut res, h, Some("bin"));
    }
    let ghost home = res.deep_view();
    if let Some(p) = path_var {
        let dirs = split_str(p, ';');
        let ghost dv = dirs.deep_view();
        let mut i: usize = 0;
        while i < dirs.len()
            invariant
                i <= dirs.len(),
                dv == dirs.deep_view(),
                res.deep_view() == home + path_candidates(dv.take(i as int)),
            decreases dirs.len() - i,
        {
            assert(dv.take(i + 1).drop_last() =~= dv.take(i as int));
            assert(dv[i as int] == dirs[i as int]@);
            push_java_pair(&mut res, dirs[i].as_str(), None);
            assert(res.deep_view() =~= home + path_candidates(dv.take(i + 1)));
            i = i + 1;
        }
        assert(dv.take(i as int) =~= dv);
    } else {
        assert(res.deep_view() =~= home + Seq::<Seq<char>>::empty());
    }
    res
}

/// The error given when no Java executable is found.
pub open spec fn java_not_found() -> Seq<char> {
    "Could not find Java. Set a Java path in the profile or install the JDK/JRE."@
}

/// The views of a result of strings.
pub open spec fn result_view(r: Result<String, String>) -> Result<Seq<char>, Seq<char>> {
    match r {
        Ok(p) => Ok(p@),
        Err(e) => Err(e@),
    }
}

/// The Java executable, given the disk's answers: the profile's Java path when it is set and
/// is a file (`profile_is_file`); else the first candidate found (`found`); else the error.
pub open spec fn java_choice(
    java_dir: Option<Seq<char>>,
    profile_is_file: bool,
    found: Option<Seq<char>>,
) -> Result<Seq<char>, Seq<char>> {
    if java_dir is Some && profile_is_file {
        Ok(java_dir->0)
    } else {
        match found {
            Some(p) => Ok(p),
            None => Err(java_not_found()),
        }
    }
}

/// Chooses the Java executable from the disk's answers: whether the profile's Java path is a
/// file, and the first candidate place found to exist.
pub fn pick_java(java_dir: Option<&str>, profile_is_file: bool, found: Option<String>) -> (res:
    Result<String, String>)
    ensures
        result_view(res) == java_choice(opt_str_view(java_dir), profile_is_file, opt_view(found)),
{
    if let Some(d) = java_dir {
        if profile_is_file {
            return Ok(String::from_str(d));
        }
    }
    match found {
        Some(p) => Ok(p),
        None => {
            proof {
                reveal_strlit("Could not find Java. Set a Java path in the profile or install the JDK/JRE.");
            }
            Err(
                String::from_str(
                    "Could not find Java. Set a Java path in the profile or install the JDK/JRE.",
                ),
            )
        },
    }
}

/// Finds the Java executable: the profile's Java path if it is a file; else the first of
/// the candidate places that exists; else an error saying Java was not found. For whatever
/// the disk answers (whether the profile path is a file, which candidates exist), the
/// result is `java_choice` of those answers.
pub fn find_java(java_dir: Option<&str>, java_home: Option<&str>, path_var: Option<&str>) -> (res:
    Result<String, String>)
    ensures
        exists|profile_is_file: bool, present: Seq<bool>|
            {
                &&& present.len() == java_candidates_spec(
                    opt_str_view(java_dir),
                    opt_str_view(java_home),
                    opt_str_view(path_var),
                ).len()
                &&& result_view(res) == #[trigger] java_choice(
                    opt_str_view(java_dir),
                    profile_is_file,
                    first_present_spec(
                        java_candidates_spec(
                            opt_str_view(java_dir),
                            opt_str_view(java_home),
                            opt_str_view(path_var),
                        ),
                        present,
                    ),
                )
            },
{
    let ghost cands = java_candidates_spec(
        opt_str_view(java_dir),
        opt_str_view(java_home),
        opt_str_view(path_var),
    );
    let profile_is_file = match java_dir {
        Some(d) => path_is_file(d),
        None => false,
    };
    if profile_is_file {
        let res = pick_java(java_dir, true, None);
        proof {
            let present = Seq::new(cands.len(), |i: int| false);
            assert(result_view(res) == java_choice(
                opt_str_view(java_dir),
                true,
                first_present_spec(cands, present),
            ));
        }
        return res;
    }
    let candidates = java_candidates(java_dir, java_home, path_var);
    assert(candidates.deep_view() == cands);
    let found = first_existing(&candidates);
    let res = pick_java(java_dir, false, found);
    proof {
        let present = choose|present: Seq<bool>|
            present.len() == candidates.len() && opt_view(found) == #[trigger] first_present_spec(
                candidates.deep_view(),
                present,
            );
        assert(candidates.deep_view().len() == candidates.len());
        assert(result_view(res) == java_choice(
            opt_str_view(java_dir),
            false,
            first_present_spec(cands, present),
        ));
    }
    res
}

/// An account of the launcher's authentication database, each field present only when the
/// file holds it as a string.
#[derive(Clone, Debug)]
pub struct AuthAccount {
    pub display_name: Option<String>,
    pub access_token: Option<String>,
    pub uuid: Option<String>,
}

/// Player name, access token and UUID of the selected account; `Player`, `0` and `0`
/// stand in for what is missing, and for all three when no account is selected.
pub fn auth_values(account: Option<AuthAccount>) -> (res: (String, String, String))
    ensures
        res.0@ == match account {
            Some(a) => match a.display_name {
                Some(n) => n@,
                None => "Player"@,
            },
            None => "Player"@,
        },
        res.1@ == match account {
            Some(a) => match a.access_token {
                Some(t) => t@,
                None => "0"@,
            },
            None => "0"@,
        },
        res.2@ == match account {
            Some(a) => match a.uuid {
                Some(u) => u@,
                None => "0"@,
            },
            None => "0"@,
        },
{
    match account {
        Some(a) => (
            match a.display_name {
                Some(n) => n,
                None => String::from_str("Player"),
            },
            match a.access_token {
                Some(t) => t,
                None => String::from_str("0"),
            },
            match a.uuid {
                Some(u) => u,
                None => String::from_str("0"),
            },
        ),
        None => (String::from_str("Player"), String::from_str("0"), String::from_str("0")),
    }
}

/// Player name, access token and UUID for `account`, with the stand-ins `auth_values` uses.
pub open spec fn auth_text_values(account: Option<AuthAccount>) -> (Seq<char>, Seq<char>, Seq<char>) {
    match account {
        Some(a) => (
            match a.display_name {
                Some(n) => n@,
                None => "Player"@,
            },
            match a.access_token {
                Some(t) => t@,
                None => "0"@,
            },
            match a.uuid {
                Some(u) => u@,
                None => "0"@,
            },
        ),
        None => ("Player"@, "0"@, "0"@),
    }
}

/// What the launcher's profile file says about accounts: the `account` of its
/// `selectedUser` (`None` when there is no `selectedUser`, `Some(None)` when that has no
/// string `account`), and the accounts of its `authenticationDatabase` object by key.
#[derive(Clone, Debug)]
pub struct AuthFile {
    pub selected_account: Option<Option<String>>,
    pub accounts: Vec<(String, AuthAccount)>,
}

/// What `serde_json` reads from the text of the launcher's profile file, taken apart into
/// an `AuthFile`, or the parser's error message.
pub uninterp spec fn auth_file_of(text: Seq<char>) -> Result<AuthFile, String>;

/// `serde_json::from_str` into a JSON value, then the fields an `AuthFile` holds moved out
/// of it (a key that is missing or holds no string gives `None`). The result is named
/// `auth_file_of`; nothing more is stated of the JSON grammar.
#[verifier::external_body]
pub(crate) fn parse_auth_file(text: &str) -> (res: Result<AuthFile, String>)
    ensures
        res == auth_file_of(text@),
{
    let v: serde_json::Value = serde_json::from_str(text).map_err(|e| e.to_string())?;
    let field = |a: &serde_json::Value, k: &str| a.get(k).and_then(|x| x.as_str()).map(String::from);
    let accounts = match v.get("authenticationDatabase").and_then(|d| d.as_object()) {
        Some(db) => db.iter().map(|(k, a)| (k.clone(), AuthAccount {
            display_name: field(a, "displayName"),
            access_token: field(a, "accessToken"),
            uuid: field(a, "uuid"),
        })).collect(),
        None => Vec::new(),
    };
    Ok(AuthFile { selected_account: v.get("selectedUser").map(|u| field(u, "account")), accounts })
}

/// The selected account: the account of the database under the selected user's account id
/// (the empty id when the selected user names none); none when no user is selected or the
/// database has no such account.
pub open spec fn selected_spec(file: AuthFile) -> Option<AuthAccount> {
    match file.selected_account {
        None => None,
        Some(id) => lookup(
            file.accounts@,
            match id {
                Some(s) => s@,
                None => Seq::empty(),
            },
        ),
    }
}

fn copy_text(o: &Option<String>) -> (res: Option<String>)
    ensures
        res == *o,
{
    match o {
        Some(s) => Some(s.clone()),
        None => None,
    }
}

/// The account the launcher's profile file selects, if any.
pub fn selected_account(file: &AuthFile) -> (res: Option<AuthAccount>)
    ensures
        res == selected_spec(*file),
{
    match &file.selected_account {
        None => None,
        Some(id) => {
            let key: &str = match id {
                Some(s) => s.as_str(),
                None => "",
            };
            proof {
                reveal_strlit("");
                assert(""@ =~= Seq::<char>::empty());
            }
            match find_key(&file.accounts, key) {
                Some(i) => {
                    let a = &file.accounts[i].1;
                    Some(
                        AuthAccount {
                            display_name: copy_text(&a.display_name),
                            access_token: copy_text(&a.access_token),
                            uuid: copy_text(&a.uuid),
                        },
                    )
                },
                None => None,
            }
        },
    }
}

/// Player name, access token and UUID from the text of the launcher's profile file: those
/// of the selected account, with stand-ins for what is missing; an error when the text is
/// not JSON.
pub fn auth_data_from_text(text: &str) -> (res: Result<(String, String, String), String>)
    ensures
        match auth_file_of(text@) {
            Ok(f) => res matches Ok(v) && (v.0@, v.1@, v.2@) == auth_text_values(selected_spec(f)),
            Err(e) => res matches Err(m) && m@ == "Failed to parse auth data: "@ + e@,
        },
{
    match parse_auth_file(text) {
        Ok(f) => Ok(auth_values(selected_account(&f))),
        Err(e) => {
            let mut m = String::from_str("Failed to parse auth data: ");
            m.append(e.as_str());
            Err(m)
        },
    }
}

/// The game's `options.txt` switched to windowed mode: every `fullscreen:true` made
/// `fullscreen:false`; none when there is nothing to switch.
pub fn windowed_options(content: &str) -> (res: Option<String>)
    ensures
        match res {
            Some(r) => contains_spec(content@, "fullscreen:true"@) && r@ == replace_spec(
                content@,
                "fullscreen:true"@,
                "fullscreen:false"@,
            ),
            None => !contains_spec(content@, "fullscreen:true"@),
        },
{
    if contains_str(content, "fullscreen:true") {
        proof {
            reveal_strlit("fullscreen:true");
        }
        Some(replace_str(content, "fullscreen:true", "fullscreen:false"))
    } else {
        None
    }
}

/// What launching with a launcher path may report before starting it: no path set, or no
/// file at the path.
pub fn check_launcher_path(path: &str) -> (res: Result<(), String>)
    ensures
        path@.len() == 0 ==> (res matches Err(e) && e@ == "No launcher path set."@),
        path@.len() > 0 ==> match res {
            Ok(()) => true,
            Err(e) => e@ == "File not found: "@ + path@,
        },
{
    if path.is_empty() {
        return Err(String::from_str("No launcher path set."));
    }
    if !path_exists(path) {
        let mut e = String::from_str("File not found: ");
        e.append(path);
        return Err(e);
    }
    Ok(())
}

/// The usual install places of the Minecraft Launcher, in the order they are tried.
pub open spec fn known_launchers_spec() -> Seq<Seq<char>> {
    seq![
        "C:\\Program Files (x86)\\Minecraft Launcher\\MinecraftLauncher.exe"@,
        "C:\\Program Files (x86)\\Minecraft Launcher\\minecraft-launcher.exe"@,
        "C:\\Program Files\\Minecraft Launcher\\MinecraftLauncher.exe"@,
        "C:\\Program Files\\Minecraft Launcher\\minecraft-launcher.exe"@,
    ]
}

/// The usual install places of the Minecraft Launcher, in the order they are tried.
pub fn known_launcher_paths() -> (res: Vec<String>)
    ensures
        res.deep_view() == known_launchers_spec(),
{
    let mut res: Vec<String> = Vec::new();
    res.push(String::from_str("C:\\Program Files (x86)\\Minecraft Launcher\\MinecraftLauncher.exe"));
    res.push(String::from_str("C:\\Program Files (x86)\\Minecraft Launcher\\minecraft-launcher.exe"));
    res.push(String::from_str("C:\\Program Files\\Minecraft Launcher\\MinecraftLauncher.exe"));
    res.push(String::from_str("C:\\Program Files\\Minecraft Launcher\\minecraft-launcher.exe"));
    assert(res.deep_view() =~= known_launchers_spec());
    res
}

/// The folder the Store installs packages in.
pub open spec fn windows_apps_spec() -> Seq<char> {
    "C:\\Program Files\\WindowsApps"@
}

/// The launcher executables to look for in the Store package folders named `names`: for each
/// name that mentions `minecraft` (in any case), in order, its two executable names.
pub open spec fn store_launcher_candidates(names: Seq<Seq<char>>) -> Seq<Seq<char>>
    decreases names.len(),
{
    if names.len() == 0 {
        Seq::empty()
    } else {
        let rest = store_launcher_candidates(names.drop_last());
        let n = names.last();
        if contains_spec(lowercase_of(n), "minecraft"@) {
            let dir = join_path_spec(windows_apps_spec(), n);
            rest + seq![
                join_path_spec(dir, "MinecraftLauncher.exe"@),
                join_path_spec(dir, "minecraft-launcher.exe"@),
            ]
        } else {
            rest
        }
    }
}

/// Where the launcher is looked for, in order: the usual install places, then the
/// executables in the Store package folders named `store_dirs`.
pub open spec fn launcher_candidates_spec(store_dirs: Seq<Seq<char>>) -> Seq<Seq<char>> {
    known_launchers_spec() + store_launcher_candidates(store_dirs)
}

/// Where the launcher is looked for, given the names of the folders in the Store's package
/// folder (none when that folder is missing).
pub fn launcher_candidates(store_dirs: &Vec<String>) -> (res: Vec<String>)
    ensures
        res.deep_view() == launcher_candidates_spec(store_dirs.deep_view()),
{
    let mut res = known_launcher_paths();
    let ghost names = store_dirs.deep_view();
    let mut i: usize = 0;
    while i < store_dirs.len()
        invariant
            i <= store_dirs.len(),
            names == store_dirs.deep_view(),
            res.deep_view() == known_launchers_spec() + store_launcher_candidates(
                names.take(i as int),
            ),
        decreases store_dirs.len() - i,
    {
        proof {
            assert(names.take(i + 1).drop_last() =~= names.take(i as int));
            assert(names.take(i + 1).last() == store_dirs[i as int]@);
        }
        if is_minecraft_name(store_dirs[i].as_str()) {
            proof {
                reveal_strlit("C:\\Program Files\\WindowsApps");
            }
            let dir = join_path("C:\\Program Files\\WindowsApps", store_dirs[i].as_str());
            let mut exes = launcher_exe_candidates(dir.as_str());
            let ghost before = res.deep_view();
            let ghost added = exes.deep_view();
            res.append(&mut exes);
            proof {
                assert(res.deep_view() =~= before + added);
            }
        }
        i = i + 1;
    }
    assert(names.take(i as int) =~= names);
    res
}

/// The Minecraft Launcher found on disk, given the names of the folders in the Store's
/// package folder: the first place of `launcher_candidates` that the disk shows to exist,
/// if any.
pub fn find_launcher(store_dirs: &Vec<String>) -> (res: Option<String>)
    ensures
        exists|present: Seq<bool>|
            present.len() == launcher_candidates_spec(store_dirs.deep_view()).len() && opt_view(res)
                == #[trigger] first_present_spec(launcher_candidates_spec(store_dirs.deep_view()), present),
{
    let candidates = launcher_candidates(store_dirs);
    let res = first_existing(&candidates);
    proof {
        let present = choose|present: Seq<bool>|
            present.len() == candidates.len() && opt_view(res) == #[trigger] first_present_spec(
                candidates.deep_view(),
                present,
            );
        assert(candidates.deep_view().len() == candidates.len());
        assert(opt_view(res) == first_present_spec(launcher_candidates_spec(store_dirs.deep_view()), present));
    }
    res
}

/// The launcher executables to look for in a Store package folder, in order.
pub fn launcher_exe_candidates(dir: &str) -> (res: Vec<String>)
    ensures
        res.deep_view() == seq![
            join_path_spec(dir@, "MinecraftLauncher.exe"@),
            join_path_spec(dir@, "minecraft-launcher.exe"@),
        ],
{
    let mut res: Vec<String> = Vec::new();
    res.push(join_path(dir, "MinecraftLauncher.exe"));
    res.push(join_path(dir, "minecraft-launcher.exe"));
    assert(res.deep_view() =~= seq![
        join_path_spec(dir@, "MinecraftLauncher.exe"@),
        join_path_spec(dir@, "minecraft-launcher.exe"@),
    ]);
    res
}

} // verus!
