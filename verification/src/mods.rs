//! Mods and Bedrock packs: what the folders hold, how entries are named and ordered.
use vstd::prelude::*;
use crate::paths::opt_view;
use vstd::multiset::Multiset;
use crate::text::{
    chars_of, contains_spec, contains_str, push_char, same_text, to_lowercase, lowercase_of, trim,
    trim_spec,
};

verus! {

broadcast use vstd::seq_lib::group_to_multiset_ensures;

/// A point in time on the system clock; only carried through.
#[verifier::external_type_specification]
#[verifier::external_body]
pub struct ExSystemTime(std::time::SystemTime);

/// `a` comes before or equals `b` in the order of `str` comparison (by characters).
pub open spec fn text_le(a: Seq<char>, b: Seq<char>) -> bool
    decreases a.len(),
{
    if a.len() == 0 {
        true
    } else if b.len() == 0 {
        false
    } else if a[0] != b[0] {
        (a[0] as int) < (b[0] as int)
    } else {
        text_le(a.skip(1), b.skip(1))
    }
}

/// Any two texts are ordered one way or the other.
pub proof fn lemma_text_le_total(a: Seq<char>, b: Seq<char>)
    ensures
        text_le(a, b) || text_le(b, a),
    decreases a.len(),
{
    if a.len() > 0 && b.len() > 0 && a[0] == b[0] {
        lemma_text_le_total(a.skip(1), b.skip(1));
    }
}

/// The text order is transitive.
pub proof fn lemma_text_le_trans(a: Seq<char>, b: Seq<char>, c: Seq<char>)
    requires
        text_le(a, b),
        text_le(b, c),
    ensures
        text_le(a, c),
    decreases a.len(),
{
    if a.len() > 0 && b.len() > 0 && c.len() > 0 && a[0] == b[0] && b[0] == c[0] {
        lemma_text_le_trans(a.skip(1), b.skip(1), c.skip(1));
    }
}

/// Texts that each come before the other are equal.
pub proof fn lemma_text_le_antisym(a: Seq<char>, b: Seq<char>)
    requires
        text_le(a, b),
        text_le(b, a),
    ensures
        a == b,
    decreases a.len(),
{
    if a.len() > 0 && b.len() > 0 {
        lemma_text_le_antisym(a.skip(1), b.skip(1));
        assert(a =~= seq![a[0]] + a.skip(1));
        assert(b =~= seq![b[0]] + b.skip(1));
    } else {
        assert(a =~= b);
    }
}

/// Whether `a` comes before or equals `b` in text order.
pub fn text_le_exec(a: &str, b: &str) -> (r: bool)
    ensures
        r == text_le(a@, b@),
{
    let x = chars_of(a);
    let y = chars_of(b);
    let mut i: usize = 0;
    assert(x@.skip(0) =~= x@);
    assert(y@.skip(0) =~= y@);
    while i < x.len() && i < y.len()
        invariant
            i <= x.len(),
            i <= y.len(),
            text_le(x@, y@) == text_le(x@.skip(i as int), y@.skip(i as int)),
            x@ == a@,
            y@ == b@,
        decreases x.len() - i,
    {
        assert(x@.skip(i as int)[0] == x@[i as int]);
        assert(y@.skip(i as int)[0] == y@[i as int]);
        if x[i] != y[i] {
            return x[i] < y[i];
        }
        assert(x@.skip(i as int).skip(1) =~= x@.skip(i + 1));
        assert(y@.skip(i as int).skip(1) =~= y@.skip(i + 1));
        i = i + 1;
    }
    i == x.len()
}

/// A type whose values are listed in a fixed order: a total preorder on keys.
pub trait SortKey: Sized {
    spec fn key_le(self, other: Self) -> bool;

    proof fn lemma_key_total(a: Self, b: Self)
        ensures
            a.key_le(b) || b.key_le(a),
    ;

    proof fn lemma_key_trans(a: Self, b: Self, c: Self)
        requires
            a.key_le(b),
            b.key_le(c),
        ensures
            a.key_le(c),
    ;

    fn le(&self, other: &Self) -> (r: bool)
        ensures
            r == self.key_le(*other),
    ;
}

/// Every element comes before or equals every later one.
pub open spec fn is_sorted<T: SortKey>(s: Seq<T>) -> bool {
    forall|i: int, j: int| 0 <= i < j < s.len() ==> #[trigger] s[i].key_le(#[trigger] s[j])
}

/// Neither key comes after the other.
pub open spec fn same_key<T: SortKey>(a: T, b: T) -> bool {
    a.key_le(b) && b.key_le(a)
}

/// `res` is `orig` rearranged by `perm` (`res[k]` is `orig[perm[k]]`, no index twice), and
/// items of the same key keep their order.
pub open spec fn stable_arrangement<T: SortKey>(orig: Seq<T>, res: Seq<T>, perm: Seq<int>) -> bool {
    &&& perm.len() == res.len()
    &&& res.len() == orig.len()
    &&& forall|k: int| 0 <= k < res.len() ==> 0 <= #[trigger] perm[k] < orig.len() && res[k] == orig[perm[k]]
    &&& forall|k1: int, k2: int| 0 <= k1 < k2 < res.len() ==> #[trigger] perm[k1] != #[trigger] perm[k2]
    &&& forall|k1: int, k2: int|
        0 <= k1 < k2 < res.len() && same_key(#[trigger] res[k1], #[trigger] res[k2]) ==> perm[k1]
            < perm[k2]
}

/// The items in key order, equal keys in their original order, as a stable sort gives them.
pub fn sort_stable<T: SortKey>(items: Vec<T>) -> (res: Vec<T>)
    ensures
        is_sorted(res@),
        res@.to_multiset() == items@.to_multiset(),
        exists|perm: Seq<int>| stable_arrangement(items@, res@, perm),
{
    let mut rest = items;
    let ghost orig = rest@;
    let ghost mut perm: Seq<int> = Seq::empty();
    let mut res: Vec<T> = Vec::new();
    while rest.len() > 0
        invariant
            is_sorted(res@),
            res@.to_multiset().add(rest@.to_multiset()) == orig.to_multiset(),
            rest@.len() <= orig.len(),
            rest@ == orig.skip(orig.len() - rest@.len()),
            stable_arrangement(orig.take(orig.len() - rest@.len()), res@, perm),
        decreases rest.len(),
    {
        let ghost before_rest = rest@;
        let ghost t = orig.len() - rest@.len();
        let x = rest.remove(0);
        proof {
            vstd::seq_lib::to_multiset_remove(before_rest, 0);
            assert(x == orig[t]);
            assert(rest@ =~= orig.skip(t + 1));
        }
        let mut p: usize = res.len();
        while p > 0 && !res[p - 1].le(&x)
            invariant
                p <= res.len(),
                is_sorted(res@),
                forall|k: int| p <= k < res.len() ==> !(#[trigger] res@[k]).key_le(x),
            decreases p,
        {
            p = p - 1;
        }
        let ghost before = res@;
        let ghost before_perm = perm;
        proof {
            assert forall|k: int| p <= k < before.len() implies x.key_le(#[trigger] before[k]) by {
                T::lemma_key_total(before[k], x);
            }
            assert forall|k: int| 0 <= k < p implies (#[trigger] before[k]).key_le(x) by {
                if k < p - 1 {
                    T::lemma_key_trans(before[k], before[p - 1], x);
                }
            }
        }
        res.insert(p, x);
        proof {
            perm = before_perm.insert(p as int, t);
            vstd::seq_lib::to_multiset_insert(before, p as int, x);
            assert forall|i: int, j: int| 0 <= i < j < res@.len() implies #[trigger] res@[i].key_le(
                #[trigger] res@[j],
            ) by {
                if j < p {
                    assert(res@[i] == before[i] && res@[j] == before[j]);
                } else if j == p {
                    assert(res@[i] == before[i]);
                } else if i < p {
                    assert(res@[i] == before[i] && res@[j] == before[j - 1]);
                    T::lemma_key_trans(before[i], x, before[j - 1]);
                } else if i == p {
                    assert(res@[j] == before[j - 1]);
                } else {
                    assert(res@[i] == before[i - 1] && res@[j] == before[j - 1]);
                }
            }
            assert(res@.to_multiset().add(rest@.to_multiset()) =~= orig.to_multiset());
            let taken = orig.take(t + 1);
            assert(orig.take(t) =~= taken.drop_last());
            assert forall|k: int| 0 <= k < res@.len() implies 0 <= #[trigger] perm[k] < taken.len()
                && res@[k] == taken[perm[k]] by {
                if k < p {
                    assert(perm[k] == before_perm[k]);
                } else if k > p {
                    assert(perm[k] == before_perm[k - 1]);
                }
            }
            assert forall|k1: int, k2: int| 0 <= k1 < k2 < res@.len() implies #[trigger] perm[k1]
                != #[trigger] perm[k2] by {
                if k1 != p && k2 != p {
                    let a = if k1 < p { k1 } else { k1 - 1 };
                    let b = if k2 < p { k2 } else { k2 - 1 };
                    assert(perm[k1] == before_perm[a] && perm[k2] == before_perm[b]);
                } else if k1 == p {
                    assert(perm[k2] == before_perm[k2 - 1]);
                } else {
                    assert(perm[k1] == before_perm[k1]);
                }
            }
            assert forall|k1: int, k2: int|
                0 <= k1 < k2 < res@.len() && same_key(#[trigger] res@[k1], #[trigger] res@[k2])
                implies perm[k1] < perm[k2] by {
                if k1 != p && k2 != p {
                    let a = if k1 < p { k1 } else { k1 - 1 };
                    let b = if k2 < p { k2 } else { k2 - 1 };
                    assert(perm[k1] == before_perm[a] && perm[k2] == before_perm[b]);
                    assert(res@[k1] == before[a] && res@[k2] == before[b]);
                } else if k1 == p {
                    assert(res@[k2] == before[k2 - 1]);
                } else {
                    assert(perm[k1] == before_perm[k1]);
                }
            }
        }
    }
    proof {
        assert(rest@.to_multiset() =~= Multiset::empty());
        assert(res@.to_multiset().add(Multiset::empty()) =~= res@.to_multiset());
        assert(orig.take(orig.len() as int) =~= orig);
    }
    res
}

/// A mod file in the `mods` folder.
#[derive(Clone, Debug)]
pub struct ModEntry {
    pub name: String,
    pub path: String,
    pub size: u64,
    pub modified: Option<std::time::SystemTime>,
}

impl SortKey for ModEntry {
    open spec fn key_le(self, other: Self) -> bool {
        text_le(self.name@, other.name@)
    }

    proof fn lemma_key_total(a: Self, b: Self) {
        lemma_text_le_total(a.name@, b.name@);
    }

    proof fn lemma_key_trans(a: Self, b: Self, c: Self) {
        lemma_text_le_trans(a.name@, b.name@, c.name@);
    }

    fn le(&self, other: &Self) -> (r: bool) {
        text_le_exec(self.name.as_str(), other.name.as_str())
    }
}

/// The mods ordered by file name, as the mods list shows them.
pub fn sort_mods(mods: Vec<ModEntry>) -> (res: Vec<ModEntry>)
    ensures
        forall|i: int, j: int| 0 <= i < j < res.len() ==> text_le(res[i].name@, res[j].name@),
        res@.to_multiset() == mods@.to_multiset(),
        exists|perm: Seq<int>| stable_arrangement(mods@, res@, perm),
{
    let res = sort_stable(mods);
    assert forall|i: int, j: int| 0 <= i < j < res.len() implies text_le(res[i].name@, res[j].name@) by {
        assert(res@[i].key_le(res@[j]));
    }
    res
}

/// The position of the last `.` in `s`, if any.
pub open spec fn last_dot(s: Seq<char>) -> Option<int>
    decreases s.len(),
{
    if s.len() == 0 {
        None
    } else if s.last() == '.' {
        Some(s.len() - 1)
    } else {
        last_dot(s.drop_last())
    }
}

/// The extension of a file name, as `Path::extension` gives it: the text after the last
/// `.`, none when there is no dot, when the only dot opens the name, or for `..`.
pub open spec fn extension_spec(name: Seq<char>) -> Option<Seq<char>> {
    if name == seq!['.', '.'] {
        None
    } else {
        match last_dot(name) {
            Some(i) => if i == 0 {
                None
            } else {
                Some(name.skip(i + 1))
            },
            None => None,
        }
    }
}

proof fn lemma_last_dot_bounds(s: Seq<char>)
    ensures
        last_dot(s) matches Some(i) ==> 0 <= i < s.len() && s[i] == '.' && forall|k: int|
            i < k < s.len() ==> s[k] != '.',
        last_dot(s) is None ==> forall|k: int| 0 <= k < s.len() ==> s[k] != '.',
    decreases s.len(),
{
    if s.len() > 0 && s.last() != '.' {
        lemma_last_dot_bounds(s.drop_last());
        let d = s.drop_last();
        assert forall|k: int| 0 <= k < d.len() implies d[k] == s[k] by {}
    }
}

/// The extension of a file name.
pub fn extension(name: &str) -> (res: Option<String>)
    ensures
        opt_view(res) == extension_spec(name@),
{
    let cs = chars_of(name);
    if cs.len() == 2 && cs[0] == '.' && cs[1] == '.' {
        assert(name@ =~= seq!['.', '.']);
        return None;
    }
    assert(name@ != seq!['.', '.']) by {
        if name@ == seq!['.', '.'] {
            assert(cs@.len() == 2 && cs@[0] == '.' && cs@[1] == '.');
        }
    }
    let mut i: usize = cs.len();
    assert(cs@.take(cs.len() as int) =~= cs@);
    while i > 0 && cs[i - 1] != '.'
        invariant
            i <= cs.len(),
            cs@ == name@,
            last_dot(cs@) == last_dot(cs@.take(i as int)),
        decreases i,
    {
        assert(cs@.take(i as int).drop_last() =~= cs@.take(i - 1));
        i = i - 1;
    }
    assert(cs@.take(cs.len() as int) =~= cs@);
    if i <= 1 {
        proof {
            if i == 1 {
                assert(cs@.take(1).last() == '.');
            } else {
                assert(cs@.take(0).len() == 0);
            }
        }
        return None;
    }
    assert(cs@.take(i as int).last() == '.');
    let mut ext = String::new();
    let mut k: usize = i;
    while k < cs.len()
        invariant
            i <= k <= cs.len(),
            ext@ == cs@.subrange(i as int, k as int),
        decreases cs.len() - k,
    {
        push_char(&mut ext, cs[k]);
        assert(cs@.subrange(i as int, k + 1) =~= cs@.subrange(i as int, k as int).push(cs@[k as int]));
        k = k + 1;
    }
    assert(cs@.subrange(i as int, cs.len() as int) =~= cs@.skip(i as int));
    Some(ext)
}

/// A mod file: its extension is exactly `jar`.
pub open spec fn is_mod_file_spec(name: Seq<char>) -> bool {
    extension_spec(name) == Some("jar"@)
}

/// Whether a file in the `mods` folder is a mod (a `.jar`).
pub fn is_mod_file(name: &str) -> (b: bool)
    ensures
        b == is_mod_file_spec(name@),
{
    match extension(name) {
        Some(e) => same_text(e.as_str(), "jar"),
        None => false,
    }
}

/// A pack file: its extension, lowercased, is `mcpack`, `mcaddon` or `zip`.
pub open spec fn is_pack_file_spec(name: Seq<char>) -> bool {
    match extension_spec(name) {
        Some(e) => {
            let l = lowercase_of(e);
            l == "mcpack"@ || l == "mcaddon"@ || l == "zip"@
        },
        None => false,
    }
}

/// Whether a file in a packs folder is a pack archive.
pub fn is_pack_file(name: &str) -> (b: bool)
    ensures
        b == is_pack_file_spec(name@),
{
    match extension(name) {
        Some(e) => {
            let l = to_lowercase(e.as_str());
            same_text(l.as_str(), "mcpack") || same_text(l.as_str(), "mcaddon") || same_text(
                l.as_str(),
                "zip",
            )
        },
        None => false,
    }
}

/// Whether a folder name, lowercased, mentions `minecraft` (how Store packages of the game
/// are recognised).
pub fn is_minecraft_name(name: &str) -> (b: bool)
    ensures
        b == contains_spec(lowercase_of(name@), "minecraft"@),
{
    let l = to_lowercase(name);
    contains_str(l.as_str(), "minecraft")
}

/// The kind of a Bedrock pack.
#[derive(Clone, Copy, Debug, PartialEq, Eq, Structural)]
pub enum BedrockPackKind {
    Behavior,
    Resource,
}

/// The label a pack kind is shown with.
pub open spec fn kind_label(kind: BedrockPackKind) -> Seq<char> {
    match kind {
        BedrockPackKind::Behavior => "Behavior Pack"@,
        BedrockPackKind::Resource => "Resource Pack"@,
    }
}

/// The folder a pack kind lives in.
pub open spec fn kind_folder(kind: BedrockPackKind) -> Seq<char> {
    match kind {
        BedrockPackKind::Behavior => "behavior_packs"@,
        BedrockPackKind::Resource => "resource_packs"@,
    }
}

impl BedrockPackKind {
    /// The label the kind is shown with.
    pub fn label(self) -> (res: &'static str)
        ensures
            res@ == kind_label(self),
    {
        match self {
            BedrockPackKind::Behavior => "Behavior Pack",
            BedrockPackKind::Resource => "Resource Pack",
        }
    }

    /// The folder of the Bedrock folder that holds packs of this kind.
    pub fn folder_name(self) -> (res: &'static str)
        ensures
            res@ == kind_folder(self),
    {
        match self {
            BedrockPackKind::Behavior => "behavior_packs",
            BedrockPackKind::Resource => "resource_packs",
        }
    }
}

/// A Bedrock pack: a folder or an archive in a packs folder.
#[derive(Clone, Debug)]
pub struct BedrockPackEntry {
    pub name: String,
    pub display_name: String,
    pub path: String,
    pub size: u64,
    pub modified: Option<std::time::SystemTime>,
    pub kind: BedrockPackKind,
    pub is_folder: bool,
}

/// The id of a pack in a selection: its kind's folder, `:`, its file name.
pub open spec fn selection_id_spec(kind: BedrockPackKind, name: Seq<char>) -> Seq<char> {
    kind_folder(kind) + seq![':'] + name
}

impl BedrockPackEntry {
    /// The id of the pack in a selection, `<folder>:<name>`.
    pub fn selection_id(&self) -> (res: String)
        ensures
            res@ == selection_id_spec(self.kind, self.name@),
    {
        let mut res = String::from_str(self.kind.folder_name());
        push_char(&mut res, ':');
        res.append(self.name.as_str());
        res
    }
}

/// Packs of different kinds or names never share a selection id.
pub proof fn lemma_selection_id_injective(
    k1: BedrockPackKind,
    n1: Seq<char>,
    k2: BedrockPackKind,
    n2: Seq<char>,
)
    requires
        selection_id_spec(k1, n1) == selection_id_spec(k2, n2),
    ensures
        k1 == k2,
        n1 == n2,
{
    reveal_strlit("behavior_packs");
    reveal_strlit("resource_packs");
    let a = selection_id_spec(k1, n1);
    let b = selection_id_spec(k2, n2);
    assert(a[0] == b[0]);
    assert(kind_folder(k1).len() == 14 && kind_folder(k2).len() == 14);
    if k1 != k2 {
        assert(kind_folder(k1)[0] != kind_folder(k2)[0]);
        assert(a[0] == kind_folder(k1)[0]);
        assert(b[0] == kind_folder(k2)[0]);
    }
    assert(n1 =~= a.skip(15));
    assert(n2 =~= b.skip(15));
}

/// Rank of a pack kind in the packs list: behavior packs first (their folder name sorts
/// first).
pub open spec fn kind_rank(kind: BedrockPackKind) -> int {
    match kind {
        BedrockPackKind::Behavior => 0,
        BedrockPackKind::Resource => 1,
    }
}

/// The rank order of kinds is the text order of their folder names.
pub proof fn lemma_kind_rank_is_folder_order(a: BedrockPackKind, b: BedrockPackKind)
    ensures
        (kind_rank(a) <= kind_rank(b)) == text_le(kind_folder(a), kind_folder(b)),
{
    reveal_strlit("behavior_packs");
    reveal_strlit("resource_packs");
    if a == b {
        lemma_text_le_refl(kind_folder(a));
    }
}

proof fn lemma_text_le_refl(a: Seq<char>)
    ensures
        text_le(a, a),
    decreases a.len(),
{
    if a.len() > 0 {
        lemma_text_le_refl(a.skip(1));
    }
}

impl SortKey for BedrockPackEntry {
    open spec fn key_le(self, other: Self) -> bool {
        kind_rank(self.kind) < kind_rank(other.kind) || (self.kind == other.kind && text_le(
            self.display_name@,
            other.display_name@,
        ))
    }

    proof fn lemma_key_total(a: Self, b: Self) {
        lemma_text_le_total(a.display_name@, b.display_name@);
    }

    proof fn lemma_key_trans(a: Self, b: Self, c: Self) {
        if a.kind == b.kind && b.kind == c.kind {
            lemma_text_le_trans(a.display_name@, b.display_name@, c.display_name@);
        }
    }

    fn le(&self, other: &Self) -> (r: bool) {
        let ra: u8 = match self.kind {
            BedrockPackKind::Behavior => 0,
            BedrockPackKind::Resource => 1,
        };
        let rb: u8 = match other.kind {
            BedrockPackKind::Behavior => 0,
            BedrockPackKind::Resource => 1,
        };
        ra < rb || (ra == rb && text_le_exec(self.display_name.as_str(), other.display_name.as_str()))
    }
}

/// The packs ordered by kind folder (behavior packs first), then by display name, as the
/// packs list shows them.
pub fn sort_bedrock_packs(packs: Vec<BedrockPackEntry>) -> (res: Vec<BedrockPackEntry>)
    ensures
        forall|i: int, j: int| 0 <= i < j < res.len() ==> res[i].key_le(res[j]),
        res@.to_multiset() == packs@.to_multiset(),
        exists|perm: Seq<int>| stable_arrangement(packs@, res@, perm),
{
    let res = sort_stable(packs);
    assert forall|i: int, j: int| 0 <= i < j < res.len() implies res[i].key_le(res[j]) by {
        assert(res@[i].key_le(res@[j]));
    }
    res
}

/// The string at `header.name` in what `serde_json` reads from the text of a pack's
/// description file, if the text is JSON and holds one.
pub uninterp spec fn pack_header_name_of(text: Seq<char>) -> Option<Seq<char>>;

/// `serde_json::from_str` into a JSON value, then its `header.name` string moved out. The
/// result is named `pack_header_name_of`; nothing more is stated of the JSON grammar.
#[verifier::external_body]
pub(crate) fn pack_header_name(text: &str) -> (res: Option<String>)
    ensures
        opt_view(res) == pack_header_name_of(text@),
{
    let v: serde_json::Value = serde_json::from_str(text).ok()?;
    v.get("header")?.get("name")?.as_str().map(String::from)
}

/// The name a pack's description file gives it: `header.name`, when that has more than
/// white space.
pub fn bedrock_manifest_name(text: &str) -> (res: Option<String>)
    ensures
        opt_view(res) == match pack_header_name_of(text@) {
            Some(n) => if trim_spec(n).len() > 0 {
                Some(n)
            } else {
                None
            },
            None => None,
        },
{
    match pack_header_name(text) {
        Some(n) => {
            let t = trim(n.as_str());
            if chars_of(t.as_str()).len() > 0 {
                Some(n)
            } else {
                None
            }
        },
        None => None,
    }
}

/// The name a pack is listed under: the name in its manifest's header when that has more
/// than white space, else its file name.
pub fn pack_display_name(manifest_name: Option<String>, file_name: &str) -> (res: String)
    ensures
        res@ == match manifest_name {
            Some(m) => if trim_spec(m@).len() > 0 {
                m@
            } else {
                file_name@
            },
            None => file_name@,
        },
{
    match manifest_name {
        Some(m) => {
            let t = trim(m.as_str());
            if chars_of(t.as_str()).len() > 0 {
                m
            } else {
                String::from_str(file_name)
            }
        },
        None => String::from_str(file_name),
    }
}

/// The mod files among `found`, in order.
pub open spec fn mod_files(found: Seq<ModEntry>) -> Seq<ModEntry> {
    found.filter(|m: ModEntry| is_mod_file_spec(m.name@))
}

/// The mod files among the files found in the `mods` folder (the `.jar` files), ordered by
/// name.
pub fn list_mods(found: Vec<ModEntry>) -> (res: Vec<ModEntry>)
    ensures
        forall|i: int, j: int| 0 <= i < j < res.len() ==> text_le(res[i].name@, res[j].name@),
        res@.to_multiset() == mod_files(found@).to_multiset(),
        exists|perm: Seq<int>| stable_arrangement(mod_files(found@), res@, perm),
{
    let mut rest = found;
    let ghost orig = rest@;
    let ghost mut taken: Seq<ModEntry> = Seq::empty();
    let mut kept: Vec<ModEntry> = Vec::new();
    proof {
        reveal(Seq::filter);
    }
    while rest.len() > 0
        invariant
            orig == taken + rest@,
            kept@ == taken.filter(|m: ModEntry| is_mod_file_spec(m.name@)),
        decreases rest.len(),
    {
        let m = rest.remove(0);
        proof {
            reveal(Seq::filter);
            assert(taken.push(m) + rest@ =~= orig);
            assert(taken.push(m).drop_last() =~= taken);
            taken = taken.push(m);
        }
        if is_mod_file(m.name.as_str()) {
            kept.push(m);
        }
    }
    assert(taken =~= orig);
    sort_mods(kept)
}

/// The listing of a pack found in a packs folder of `kind`: folders and pack archives are
/// listed, under their manifest's name when it has one; other files are not.
pub fn bedrock_pack_entry(
    name: String,
    path: String,
    is_folder: bool,
    manifest_name: Option<String>,
    size: u64,
    modified: Option<std::time::SystemTime>,
    kind: BedrockPackKind,
) -> (res: Option<BedrockPackEntry>)
    ensures
        res is Some <==> (is_folder || is_pack_file_spec(name@)),
        res matches Some(e) ==> {
            &&& e.name == name
            &&& e.display_name@ == match manifest_name {
                Some(m) => if trim_spec(m@).len() > 0 {
                    m@
                } else {
                    name@
                },
                None => name@,
            }
            &&& e.path == path
            &&& e.size == size
            &&& e.modified == modified
            &&& e.kind == kind
            &&& e.is_folder == is_folder
        },
{
    if !is_folder && !is_pack_file(name.as_str()) {
        return None;
    }
    let display_name = pack_display_name(manifest_name, name.as_str());
    Some(BedrockPackEntry { name, display_name, path, size, modified, kind, is_folder })
}

/// The packs of both packs folders, ordered by kind folder (behavior packs first), then by
/// display name.
pub fn list_bedrock_packs(
    behavior: Vec<BedrockPackEntry>,
    resource: Vec<BedrockPackEntry>,
) -> (res: Vec<BedrockPackEntry>)
    ensures
        forall|i: int, j: int| 0 <= i < j < res.len() ==> res[i].key_le(res[j]),
        res@.to_multiset() == (behavior@ + resource@).to_multiset(),
        exists|perm: Seq<int>| stable_arrangement(behavior@ + resource@, res@, perm),
{
    let mut all = behavior;
    let mut more = resource;
    all.append(&mut more);
    sort_bedrock_packs(all)
}

} // verus!
