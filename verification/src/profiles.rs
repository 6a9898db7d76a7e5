//! Profiles are the directories in `~/Signal`, not the launchers, so profiles
//! with a missing or hand-made launcher are still found.

use crate::names::{valid_chars, valid_name};
use crate::paths::{path_join, Paths};
use crate::procs::{runs_in, Running};
use crate::text::{
    ascii_lower, chars_of, eq_ignore_ascii_case, same_ignoring_ascii_case, texts, to_ascii_lower,
};
use vstd::prelude::*;

verus! {

broadcast use vstd::seq_lib::group_seq_properties;

/// The name shown for the snap's own profile. Not a valid profile name, so it
/// never collides with a folder in `~/Signal`, and delete/repair refuse it.
pub const DEFAULT_NAME: &'static str = "Signal (default)";

#[derive(Clone, Debug, PartialEq)]
pub struct Profile {
    /// The key: the folder name in `~/Signal`, or `DEFAULT_NAME`.
    pub name: String,
    /// What the UI shows; the folder name, or the user's name for the default.
    pub title: String,
    pub dir: String,
    pub size_bytes: u64,
    pub running: bool,
    pub launchers: Vec<String>,
    /// The Signal snap's own profile (opened from the normal "Signal" entry),
    /// shown for completeness; it is never created, deleted or repaired here.
    pub is_default: bool,
    /// The default Signal's menu entry is hidden (see `lock`); always false
    /// for the profiles in `~/Signal`.
    pub locked: bool,
}

/// The default name can never be a profile folder.
pub proof fn default_name_is_not_a_profile_name()
    ensures
        !valid_name(DEFAULT_NAME@),
{
    reveal_strlit("Signal (default)");
    assert(!crate::names::is_name_char(DEFAULT_NAME@[6]));
}

/// An entry of `~/Signal` as read from disk.
#[derive(Clone, Debug)]
pub struct Entry {
    pub name: String,
    pub is_dir: bool,
}

/// The names of the entries that are profile folders (directories with a
/// valid name), in the order given.
pub open spec fn profile_folders(entries: Seq<Entry>) -> Seq<Seq<char>>
    decreases entries.len(),
{
    if entries.len() == 0 {
        Seq::empty()
    } else {
        let before = profile_folders(entries.drop_last());
        let e = entries.last();
        if e.is_dir && valid_name(e.name@) {
            before.push(e.name@)
        } else {
            before
        }
    }
}

/// A text with ASCII letters in lower case.
pub open spec fn lower_text(s: Seq<char>) -> Seq<char> {
    s.map_values(|c: char| ascii_lower(c))
}

/// Lexicographic order of texts, character by character.
pub open spec fn text_le(a: Seq<char>, b: Seq<char>) -> bool
    decreases a.len(),
{
    if a.len() == 0 {
        true
    } else if b.len() == 0 {
        false
    } else if a[0] != b[0] {
        a[0] < b[0]
    } else {
        text_le(a.drop_first(), b.drop_first())
    }
}

/// The order of profile names: by their lower-case form.
pub open spec fn key_le(a: Seq<char>, b: Seq<char>) -> bool {
    text_le(lower_text(a), lower_text(b))
}

pub open spec fn sorted_by_key(s: Seq<Seq<char>>) -> bool {
    forall|i: int, j: int| 0 <= i < j < s.len() ==> key_le(#[trigger] s[i], #[trigger] s[j])
}

/// `x` inserted after every leading name that sorts before or with it.
pub open spec fn insert_by_key(s: Seq<Seq<char>>, x: Seq<char>) -> Seq<Seq<char>>
    decreases s.len(),
{
    if s.len() == 0 {
        seq![x]
    } else if key_le(s[0], x) {
        seq![s[0]] + insert_by_key(s.drop_first(), x)
    } else {
        seq![x] + s
    }
}

/// The names sorted by their lower-case form, names that compare equal kept
/// in the order given (a stable sort).
pub open spec fn sort_by_key(s: Seq<Seq<char>>) -> Seq<Seq<char>>
    decreases s.len(),
{
    if s.len() == 0 {
        s
    } else {
        insert_by_key(sort_by_key(s.drop_last()), s.last())
    }
}

/// Inserting after the leading names that sort before or with `x` puts it
/// at the first position whose name sorts after it.
proof fn lemma_insert_by_key_at(s: Seq<Seq<char>>, x: Seq<char>, p: int)
    requires
        0 <= p <= s.len(),
        forall|k: int| 0 <= k < p ==> key_le(#[trigger] s[k], x),
        p == s.len() || !key_le(s[p], x),
    ensures
        insert_by_key(s, x) == s.insert(p, x),
    decreases p,
{
    if s.len() == 0 {
        assert(s.insert(p, x) =~= seq![x]);
    } else if p == 0 {
        assert(s.insert(0, x) =~= seq![x] + s);
    } else {
        let t = s.drop_first();
        assert forall|k: int| 0 <= k < p - 1 implies key_le(#[trigger] t[k], x) by {
            assert(t[k] == s[k + 1]);
        }
        if p < s.len() {
            assert(t[p - 1] == s[p]);
        }
        lemma_insert_by_key_at(t, x, p - 1);
        assert(key_le(s[0], x));
        assert(seq![s[0]] + t.insert(p - 1, x) =~= s.insert(p, x));
    }
}

proof fn lemma_text_le_total(a: Seq<char>, b: Seq<char>)
    ensures
        text_le(a, b) || text_le(b, a),
    decreases a.len(),
{
    if a.len() > 0 && b.len() > 0 && a[0] == b[0] {
        lemma_text_le_total(a.drop_first(), b.drop_first());
    }
}

proof fn lemma_text_le_transitive(a: Seq<char>, b: Seq<char>, c: Seq<char>)
    requires
        text_le(a, b),
        text_le(b, c),
    ensures
        text_le(a, c),
    decreases a.len(),
{
    if a.len() > 0 && b.len() > 0 && c.len() > 0 && a[0] == b[0] && b[0] == c[0] {
        lemma_text_le_transitive(a.drop_first(), b.drop_first(), c.drop_first());
    }
}

/// `key_le` on character vectors.
fn key_le_exec(a: &Vec<char>, b: &Vec<char>) -> (r: bool)
    ensures
        r == key_le(a@, b@),
{
    let ghost la = lower_text(a@);
    let ghost lb = lower_text(b@);
    let mut i: usize = 0;
    assert(la.skip(0) =~= la);
    assert(lb.skip(0) =~= lb);
    while i < a.len() && i < b.len() && to_ascii_lower(a[i]) == to_ascii_lower(b[i])
        invariant
            i <= a@.len(),
            i <= b@.len(),
            la == lower_text(a@),
            lb == lower_text(b@),
            key_le(a@, b@) == text_le(la.skip(i as int), lb.skip(i as int)),
        decreases a.len() - i,
    {
        assert(la.skip(i as int).drop_first() =~= la.skip(i + 1));
        assert(lb.skip(i as int).drop_first() =~= lb.skip(i + 1));
        i = i + 1;
    }
    if i == a.len() {
        true
    } else if i == b.len() {
        false
    } else {
        assert(la.skip(i as int)[0] == ascii_lower(a@[i as int]));
        assert(lb.skip(i as int)[0] == ascii_lower(b@[i as int]));
        to_ascii_lower(a[i]) < to_ascii_lower(b[i])
    }
}

/// The profile folders among the entries of `~/Signal`, sorted by lower-case
/// name.
pub fn list_names(entries: &[Entry]) -> (r: Vec<String>)
    ensures
        texts(r@) == sort_by_key(profile_folders(entries@)),
        texts(r@).to_multiset() == profile_folders(entries@).to_multiset(),
        sorted_by_key(texts(r@)),
        forall|i: int| 0 <= i < r@.len() ==> valid_name(#[trigger] r@[i]@),
        forall|i: int, j: int|
            0 <= i < j < r@.len() ==> no_later_ignoring_case(#[trigger] r@[i]@, #[trigger] r@[j]@),
{
    broadcast use vstd::seq_lib::group_to_multiset_ensures, vstd::multiset::group_multiset_axioms;

    let mut out: Vec<String> = Vec::new();
    let mut i: usize = 0;
    while i < entries.len()
        invariant
            i <= entries@.len(),
            texts(out@) == sort_by_key(profile_folders(entries@.take(i as int))),
            texts(out@).to_multiset() == profile_folders(entries@.take(i as int)).to_multiset(),
            sorted_by_key(texts(out@)),
            forall|k: int| 0 <= k < out@.len() ==> valid_name(#[trigger] out@[k]@),
        decreases entries.len() - i,
    {
        let e = &entries[i];
        assert(entries@.take(i + 1).drop_last() =~= entries@.take(i as int));
        let name = chars_of(e.name.as_str());
        if e.is_dir && valid_chars(&name) {
            // Insert after every name that sorts before or with it.
            let mut p: usize = 0;
            while p < out.len() && key_le_exec(&chars_of(out[p].as_str()), &name)
                invariant
                    p <= out@.len(),
                    forall|k: int| 0 <= k < p ==> key_le(#[trigger] out@[k]@, name@),
                decreases out.len() - p,
            {
                p = p + 1;
            }
            let ghost before = texts(out@);
            proof {
                if p < out@.len() {
                    assert(!key_le(out@[p as int]@, name@));
                    lemma_text_le_total(lower_text(out@[p as int]@), lower_text(name@));
                    assert forall|k: int| p <= k < out@.len() implies key_le(
                        name@,
                        #[trigger] out@[k]@,
                    ) by {
                        if k > p {
                            assert(key_le(before[p as int], before[k]));
                            lemma_text_le_transitive(
                                lower_text(name@),
                                lower_text(out@[p as int]@),
                                lower_text(out@[k]@),
                            );
                        }
                    }
                }
            }
            proof {
                assert forall|k: int| 0 <= k < p implies key_le(#[trigger] before[k], name@) by {
                    assert(before[k] == out@[k]@);
                }
                if p < out@.len() {
                    assert(before[p as int] == out@[p as int]@);
                }
                lemma_insert_by_key_at(before, name@, p as int);
                let folders = profile_folders(entries@.take(i + 1));
                assert(folders == profile_folders(entries@.take(i as int)).push(name@));
                assert(folders.drop_last() =~= profile_folders(entries@.take(i as int)));
            }
            out.insert(p, e.name.clone());
            proof {
                let after = texts(out@);
                assert(after =~= before.insert(p as int, name@));
                assert(after.remove(p as int) =~= before);
                assert(after.to_multiset().remove(name@) == before.to_multiset());
                assert(after.to_multiset().count(name@) > 0) by {
                    assert(after[p as int] == name@);
                    assert(after.contains(name@));
                }
                assert(after.to_multiset() =~= before.to_multiset().insert(name@));
                assert forall|a: int, b: int| 0 <= a < b < after.len() implies key_le(
                    #[trigger] after[a],
                    #[trigger] after[b],
                ) by {
                    if a < p && b < p {
                        assert(key_le(before[a], before[b]));
                    } else if a < p && b == p {
                    } else if a < p && b > p {
                        assert(key_le(before[a], before[b - 1]));
                    } else if a == p {
                    } else {
                        assert(key_le(before[a - 1], before[b - 1]));
                    }
                }
                assert forall|k: int| 0 <= k < out@.len() implies valid_name(#[trigger] out@[k]@) by {
                    if k < p {
                        assert(out@[k]@ == before[k]);
                    } else if k > p {
                        assert(out@[k]@ == before[k - 1]);
                    }
                }
            }
        }
        i = i + 1;
    }
    assert(entries@.take(entries@.len() as int) =~= entries@);
    proof {
        assert forall|i: int, j: int| 0 <= i < j < out@.len() implies no_later_ignoring_case(
            #[trigger] out@[i]@,
            #[trigger] out@[j]@,
        ) by {
            assert(texts(out@)[i] == out@[i]@ && texts(out@)[j] == out@[j]@);
            lemma_key_le_ignores_case(out@[i]@, out@[j]@);
        }
    }
    out
}

/// The existing profile whose name equals `name` ignoring case, so "work" and
/// "Work" can't both exist as near-identical menu entries. `names` are the
/// profile names (see `list_names`); the first match is returned.
pub fn existing_ignoring_case(names: &[String], name: &str) -> (r: Option<String>)
    ensures
        match r {
            Some(found) => exists|k: int|
                0 <= k < names@.len() && names@[k]@ == found@ && eq_ignore_ascii_case(
                    found@,
                    name@,
                ) && forall|j: int|
                    0 <= j < k ==> !eq_ignore_ascii_case(#[trigger] names@[j]@, name@),
            None => forall|k: int|
                0 <= k < names@.len() ==> !eq_ignore_ascii_case(#[trigger] names@[k]@, name@),
        },
{
    let wanted = chars_of(name);
    let mut i: usize = 0;
    while i < names.len()
        invariant
            i <= names@.len(),
            wanted@ == name@,
            forall|j: int| 0 <= j < i ==> !eq_ignore_ascii_case(#[trigger] names@[j]@, name@),
        decreases names.len() - i,
    {
        if same_ignoring_ascii_case(&chars_of(names[i].as_str()), &wanted) {
            return Some(names[i].clone());
        }
        i = i + 1;
    }
    None
}

/// What was found on disk about one profile folder.
#[derive(Clone, Debug)]
pub struct Folder {
    pub name: String,
    pub size_bytes: u64,
    /// Launchers that start Signal with this folder (see `launcher::find`).
    pub launchers: Vec<String>,
}

/// What was found on disk about the default Signal's data, when it exists.
#[derive(Clone, Copy, Debug)]
pub struct DefaultData {
    pub size_bytes: u64,
    /// The snap's menu entry is hidden (see `lock::is_locked`).
    pub locked: bool,
}

/// The profile shown for the default Signal.
pub open spec fn is_default_profile(paths: Paths, d: DefaultData, running: Running, p: Profile) -> bool {
    &&& p.name@ == DEFAULT_NAME@
    &&& p.title@ == DEFAULT_NAME@
    &&& p.dir@ == paths.default_data_dir@
    &&& p.size_bytes == d.size_bytes
    &&& p.running == running.default
    &&& p.launchers@.len() == 0
    &&& p.is_default
    &&& p.locked == d.locked
}

/// The profile shown for a folder in `~/Signal`.
pub open spec fn is_folder_profile(paths: Paths, f: Folder, running: Running, p: Profile) -> bool {
    &&& p.name@ == f.name@
    &&& p.title@ == f.name@
    &&& p.dir@ == path_join(paths.signal_base@, f.name@)
    &&& p.size_bytes == f.size_bytes
    &&& p.running == runs_in(running.data_dirs@, p.dir@)
    &&& texts(p.launchers@) == texts(f.launchers@)
    &&& !p.is_default
    &&& !p.locked
}

fn copy_strings(v: &Vec<String>) -> (r: Vec<String>)
    ensures
        texts(r@) == texts(v@),
{
    let mut r: Vec<String> = Vec::new();
    let mut i: usize = 0;
    while i < v.len()
        invariant
            i <= v@.len(),
            texts(r@) == texts(v@.take(i as int)),
        decreases v.len() - i,
    {
        r.push(v[i].clone());
        assert(texts(v@.take(i + 1)) =~= texts(v@.take(i as int)).push(v@[i as int]@));
        i = i + 1;
    }
    assert(v@.take(v@.len() as int) =~= v@);
    r
}

/// The default Signal first (when the snap has data), then every profile in
/// `~/Signal`, in the order of `folders`.
pub fn load_all(
    paths: &Paths,
    default: Option<DefaultData>,
    folders: &[Folder],
    running: &Running,
) -> (r: Vec<Profile>)
    ensures
        r@.len() == (if default is Some { 1int } else { 0int }) + folders@.len(),
        default matches Some(d) ==> is_default_profile(*paths, d, *running, r@[0]),
        forall|k: int|
            0 <= k < folders@.len() ==> is_folder_profile(
                *paths,
                #[trigger] folders@[k],
                *running,
                r@[k + (if default is Some { 1int } else { 0int })],
            ),
{
    let mut out: Vec<Profile> = Vec::new();
    let ghost offset: int = if default is Some { 1int } else { 0int };
    match default {
        Some(d) => {
            out.push(Profile {
                name: DEFAULT_NAME.to_owned(),
                title: DEFAULT_NAME.to_owned(),
                dir: paths.default_data_dir.clone(),
                size_bytes: d.size_bytes,
                running: running.default,
                launchers: Vec::new(),
                is_default: true,
                locked: d.locked,
            });
        },
        None => {},
    }
    let mut i: usize = 0;
    while i < folders.len()
        invariant
            i <= folders@.len(),
            offset == (if default is Some { 1int } else { 0int }),
            out@.len() == offset + i,
            default matches Some(d) ==> is_default_profile(*paths, d, *running, out@[0]),
            forall|k: int|
                0 <= k < i ==> is_folder_profile(
                    *paths,
                    #[trigger] folders@[k],
                    *running,
                    out@[k + offset],
                ),
        decreases folders.len() - i,
    {
        let f = &folders[i];
        let dir = paths.profile_dir(f.name.as_str());
        let is_running = running.contains(dir.as_str());
        out.push(Profile {
            name: f.name.clone(),
            title: f.name.clone(),
            dir,
            size_bytes: f.size_bytes,
            running: is_running,
            launchers: copy_strings(&f.launchers),
            is_default: false,
            locked: false,
        });
        i = i + 1;
    }
    out
}

/// The default Signal is never among the profile folders: every folder name
/// is valid, and the default's name is not.
pub proof fn profile_folders_never_hold_the_default(entries: Seq<Entry>)
    ensures
        !profile_folders(entries).contains(DEFAULT_NAME@),
    decreases entries.len(),
{
    default_name_is_not_a_profile_name();
    if entries.len() > 0 {
        profile_folders_never_hold_the_default(entries.drop_last());
        let before = profile_folders(entries.drop_last());
        if profile_folders(entries).contains(DEFAULT_NAME@) {
            let k = choose|k: int|
                0 <= k < profile_folders(entries).len() && profile_folders(entries)[k]
                    == DEFAULT_NAME@;
            if k < before.len() {
                assert(before[k] == DEFAULT_NAME@);
            }
        }
    }
}

/// A letter's code with ASCII upper case folded to lower case: `A`..`Z`
/// count as `a`..`z`, everything else as itself.
pub open spec fn folded(c: char) -> int {
    if 'A' <= c && c <= 'Z' {
        c as int + 32
    } else {
        c as int
    }
}

/// `a` sorts no later than `b` when case is ignored: at the first place where
/// their folded letters differ, `a`'s is the smaller; or `a` runs out first
/// (or together with `b`) with no difference.
pub open spec fn no_later_ignoring_case(a: Seq<char>, b: Seq<char>) -> bool {
    ||| exists|k: int|
        0 <= k < a.len() && k < b.len() && folded(a[k]) < folded(b[k]) && forall|j: int|
            0 <= j < k ==> folded(#[trigger] a[j]) == folded(b[j])
    ||| a.len() <= b.len() && forall|j: int| 0 <= j < a.len() ==> folded(#[trigger] a[j]) == folded(b[j])
}

proof fn lemma_folded(c: char)
    ensures
        ascii_lower(c) as int == folded(c),
{
    if 'A' <= c && c <= 'Z' {
        assert(((c as u32) + 32) as char as int == c as int + 32);
    }
}

/// The profiles' order compares names with their case folded.
proof fn lemma_key_le_ignores_case(a: Seq<char>, b: Seq<char>)
    requires
        key_le(a, b),
    ensures
        no_later_ignoring_case(a, b),
    decreases a.len(),
{
    let (la, lb) = (lower_text(a), lower_text(b));
    if a.len() == 0 {
    } else {
        assert(b.len() > 0);
        lemma_folded(a[0]);
        lemma_folded(b[0]);
        assert(la[0] == ascii_lower(a[0]) && lb[0] == ascii_lower(b[0]));
        if la[0] != lb[0] {
            assert(folded(a[0]) < folded(b[0]));
            assert(forall|j: int| 0 <= j < 0 ==> folded(#[trigger] a[j]) == folded(b[j]));
        } else {
            let (ta, tb) = (a.drop_first(), b.drop_first());
            assert(lower_text(ta) =~= la.drop_first());
            assert(lower_text(tb) =~= lb.drop_first());
            lemma_key_le_ignores_case(ta, tb);
            assert(folded(a[0]) == folded(b[0]));
            if exists|k: int|
                0 <= k < ta.len() && k < tb.len() && folded(ta[k]) < folded(tb[k]) && forall|j: int|
                    0 <= j < k ==> folded(#[trigger] ta[j]) == folded(tb[j]) {
                let k = choose|k: int|
                    0 <= k < ta.len() && k < tb.len() && folded(ta[k]) < folded(tb[k]) && forall|j: int|
                        0 <= j < k ==> folded(#[trigger] ta[j]) == folded(tb[j]);
                assert(folded(a[k + 1]) < folded(b[k + 1]));
                assert forall|j: int| 0 <= j < k + 1 implies folded(#[trigger] a[j]) == folded(b[j]) by {
                    if j > 0 {
                        assert(a[j] == ta[j - 1] && b[j] == tb[j - 1]);
                    }
                }
            } else {
                assert forall|j: int| 0 <= j < a.len() implies folded(#[trigger] a[j]) == folded(b[j]) by {
                    if j > 0 {
                        assert(a[j] == ta[j - 1] && b[j] == tb[j - 1]);
                    }
                }
            }
        }
    }
}

/// Names kept in the profiles' order are in alphabetical order with case
/// ignored: "apple" before "Banana", "Work" and "work" side by side.
pub proof fn profile_order_ignores_case(names: Seq<Seq<char>>)
    requires
        sorted_by_key(names),
    ensures
        forall|i: int, j: int|
            0 <= i < j < names.len() ==> no_later_ignoring_case(
                #[trigger] names[i],
                #[trigger] names[j],
            ),
{
    assert forall|i: int, j: int| 0 <= i < j < names.len() implies no_later_ignoring_case(
        #[trigger] names[i],
        #[trigger] names[j],
    ) by {
        lemma_key_le_ignores_case(names[i], names[j]);
    }
}

} // verus!
