//! Profile-name rules, shared with the `multisignal.sh` command-line tool so
//! that both agree on which folders are profiles.

use crate::text::{
    ascii_alnum, chars_of, is_ascii_alnum, is_white_space, push_chars, push_str, trim, trim_chars,
    trim_end, trim_start,
    white_space,
};
use vstd::prelude::*;

verus! {

broadcast use vstd::seq_lib::group_seq_properties;

pub const MAX_LEN: usize = 64;

/// A character allowed in a profile name.
pub open spec fn is_name_char(c: char) -> bool {
    is_ascii_alnum(c) || c == '.' || c == '_' || c == '-'
}

/// Letters, digits, `.`, `_`, `-`, starting with a letter or digit, at most
/// `MAX_LEN` long. (Every allowed character is ASCII, so characters and bytes
/// count the same.)
pub open spec fn valid_name(s: Seq<char>) -> bool {
    &&& 1 <= s.len() <= MAX_LEN
    &&& is_ascii_alnum(s[0])
    &&& forall|i: int| 0 <= i < s.len() ==> is_name_char(#[trigger] s[i])
}

/// Letters, digits, `.`, `_`, `-`, starting with a letter or digit. This rules
/// out empty names, `.`/`..`, `/`, spaces, quotes and leading dashes.
pub fn is_valid(name: &str) -> (r: bool)
    ensures
        r == valid_name(name@),
{
    let v = chars_of(name);
    valid_chars(&v)
}

pub fn valid_chars(v: &Vec<char>) -> (r: bool)
    ensures
        r == valid_name(v@),
{
    if v.len() == 0 || v.len() > MAX_LEN || !ascii_alnum(v[0]) {
        return false;
    }
    let mut i: usize = 0;
    while i < v.len()
        invariant
            i <= v@.len(),
            forall|k: int| 0 <= k < i ==> is_name_char(#[trigger] v@[k]),
        decreases v.len() - i,
    {
        let c = v[i];
        if !(ascii_alnum(c) || c == '.' || c == '_' || c == '-') {
            return false;
        }
        i = i + 1;
    }
    true
}

/// Kept as they are when fixing a name.
pub open spec fn is_kept(c: char) -> bool {
    is_ascii_alnum(c) || c == '.' || c == '_'
}

/// Turned into a single `-` when fixing a name.
pub open spec fn is_dash_like(c: char) -> bool {
    is_white_space(c) || c == '-'
}

/// Letters, digits, `.` and `_` kept, each run of white space and dashes
/// made one `-`, everything else dropped.
pub open spec fn cleaned(s: Seq<char>) -> Seq<char>
    decreases s.len(),
{
    if s.len() == 0 {
        s
    } else {
        let before = cleaned(s.drop_last());
        let c = s.last();
        if is_kept(c) {
            before.push(c)
        } else if is_dash_like(c) && !(before.len() > 0 && before.last() == '-') {
            before.push('-')
        } else {
            before
        }
    }
}

/// From the first letter or digit on; empty when there is none.
pub open spec fn from_first_alnum(s: Seq<char>) -> Seq<char>
    decreases s.len(),
{
    if s.len() == 0 || is_ascii_alnum(s[0]) {
        s
    } else {
        from_first_alnum(s.drop_first())
    }
}

/// Trailing dashes removed.
pub open spec fn trim_dashes_end(s: Seq<char>) -> Seq<char>
    decreases s.len(),
{
    if s.len() > 0 && s.last() == '-' {
        trim_dashes_end(s.drop_last())
    } else {
        s
    }
}

/// The fixed name for an input: trimmed, cleaned, cut to start at a letter or
/// digit and to `MAX_LEN` characters, trailing dashes dropped, and kept only if
/// it is then a valid name.
pub open spec fn suggestion(input: Seq<char>) -> Option<Seq<char>> {
    let out = from_first_alnum(cleaned(trim(input)));
    if out.len() == 0 {
        None
    } else {
        let cut = if out.len() <= MAX_LEN {
            out
        } else {
            out.take(MAX_LEN as int)
        };
        let fixed = trim_dashes_end(cut);
        if valid_name(fixed) {
            Some(fixed)
        } else {
            None
        }
    }
}

/// Turns a rejected name such as "My Work!" into "My-Work", or `None` if
/// nothing usable is left.
pub fn suggest(input: &str) -> (r: Option<String>)
    ensures
        r matches Some(s) ==> suggestion(input@) == Some(s@),
        r is None ==> suggestion(input@) is None,
{
    let v = chars_of(input);
    let t = trim_chars(&v);
    let mut out: Vec<char> = Vec::new();
    let mut i: usize = 0;
    while i < t.len()
        invariant
            i <= t@.len(),
            out@ == cleaned(t@.take(i as int)),
        decreases t.len() - i,
    {
        assert(t@.take(i + 1).drop_last() =~= t@.take(i as int));
        let c = t[i];
        if ascii_alnum(c) || c == '.' || c == '_' {
            out.push(c);
        } else if (white_space(c) || c == '-') && !(out.len() > 0 && out[out.len() - 1] == '-') {
            out.push('-');
        }
        i = i + 1;
    }
    assert(t@.take(t@.len() as int) =~= t@);
    let n = out.len();
    let mut start: usize = 0;
    while start < n && !ascii_alnum(out[start])
        invariant
            start <= n == out@.len(),
            from_first_alnum(out@) == from_first_alnum(out@.subrange(start as int, n as int)),
        decreases n - start,
    {
        assert(out@.subrange(start as int, n as int).drop_first() =~= out@.subrange(
            start + 1,
            n as int,
        ));
        start = start + 1;
    }
    assert(from_first_alnum(out@) == out@.subrange(start as int, n as int));
    if start == n {
        return None;
    }
    let mut end: usize = if n - start <= MAX_LEN {
        n
    } else {
        start + MAX_LEN
    };
    proof {
        let o = out@.subrange(start as int, n as int);
        let cut = if o.len() <= MAX_LEN {
            o
        } else {
            o.take(MAX_LEN as int)
        };
        assert(cut =~= out@.subrange(start as int, end as int));
    }
    while end > start && out[end - 1] == '-'
        invariant
            start <= end <= n == out@.len(),
            suggestion(input@) == (if valid_name(
                trim_dashes_end(out@.subrange(start as int, end as int)),
            ) {
                Some(trim_dashes_end(out@.subrange(start as int, end as int)))
            } else {
                None
            }),
        decreases end,
    {
        assert(out@.subrange(start as int, end as int).drop_last() =~= out@.subrange(
            start as int,
            end - 1,
        ));
        end = end - 1;
    }
    assert(trim_dashes_end(out@.subrange(start as int, end as int)) == out@.subrange(
        start as int,
        end as int,
    ));
    let mut fixed = String::new();
    push_chars(&mut fixed, out.as_slice(), start, end);
    assert(fixed@ =~= out@.subrange(start as int, end as int));
    if valid_chars(&chars_of(fixed.as_str())) {
        Some(fixed)
    } else {
        None
    }
}

/// Every character of a cleaned text is kept or a dash, and it holds a
/// letter or digit exactly when the text it was cleaned from does.
proof fn lemma_cleaned(s: Seq<char>)
    ensures
        forall|i: int|
            0 <= i < cleaned(s).len() ==> is_kept(#[trigger] cleaned(s)[i]) || cleaned(s)[i]
                == '-',
        (exists|i: int| 0 <= i < cleaned(s).len() && is_ascii_alnum(#[trigger] cleaned(s)[i]))
            <==> (exists|i: int| 0 <= i < s.len() && is_ascii_alnum(#[trigger] s[i])),
    decreases s.len(),
{
    if s.len() > 0 {
        let t = s.drop_last();
        lemma_cleaned(t);
        let before = cleaned(t);
        let c = s.last();
        if exists|i: int| 0 <= i < s.len() && is_ascii_alnum(#[trigger] s[i]) {
            let i = choose|i: int| 0 <= i < s.len() && is_ascii_alnum(#[trigger] s[i]);
            if i < s.len() - 1 {
                assert(is_ascii_alnum(t[i]));
                let j = choose|j: int| 0 <= j < before.len() && is_ascii_alnum(#[trigger] before[j]);
                assert(is_ascii_alnum(cleaned(s)[j]));
            } else {
                assert(is_ascii_alnum(cleaned(s)[cleaned(s).len() - 1]));
            }
        }
        if exists|i: int| 0 <= i < cleaned(s).len() && is_ascii_alnum(#[trigger] cleaned(s)[i]) {
            let j = choose|j: int| 0 <= j < cleaned(s).len() && is_ascii_alnum(#[trigger] cleaned(s)[j]);
            if j < before.len() {
                assert(is_ascii_alnum(before[j]));
                let i = choose|i: int| 0 <= i < t.len() && is_ascii_alnum(#[trigger] t[i]);
                assert(is_ascii_alnum(s[i]));
            } else {
                assert(is_ascii_alnum(s[s.len() - 1]));
            }
        }
    }
}

/// Trimming removes only white space, never a letter or digit.
proof fn lemma_trim_keeps_alnum(s: Seq<char>)
    ensures
        (exists|i: int| 0 <= i < trim(s).len() && is_ascii_alnum(#[trigger] trim(s)[i])) <==> (
        exists|i: int| 0 <= i < s.len() && is_ascii_alnum(#[trigger] s[i])),
{
    let a = trim_start(s);
    lemma_trim_start_keeps_alnum(s);
    lemma_trim_end_keeps_alnum(a);
    assert(trim(s) == trim_end(a));
    if exists|i: int| 0 <= i < s.len() && is_ascii_alnum(#[trigger] s[i]) {
        let j = choose|j: int| 0 <= j < a.len() && is_ascii_alnum(#[trigger] a[j]);
        let k = choose|k: int| 0 <= k < trim_end(a).len() && is_ascii_alnum(#[trigger] trim_end(a)[k]);
        assert(is_ascii_alnum(trim(s)[k]));
    }
    if exists|i: int| 0 <= i < trim(s).len() && is_ascii_alnum(#[trigger] trim(s)[i]) {
        let k = choose|k: int| 0 <= k < trim(s).len() && is_ascii_alnum(#[trigger] trim(s)[k]);
        assert(is_ascii_alnum(trim_end(a)[k]));
        let j = choose|j: int| 0 <= j < a.len() && is_ascii_alnum(#[trigger] a[j]);
        let i = choose|i: int| 0 <= i < s.len() && is_ascii_alnum(#[trigger] s[i]);
        assert(is_ascii_alnum(s[i]));
    }
}

proof fn lemma_trim_start_keeps_alnum(s: Seq<char>)
    ensures
        (exists|i: int| 0 <= i < trim_start(s).len() && is_ascii_alnum(#[trigger] trim_start(s)[i]))
            <==> (exists|i: int| 0 <= i < s.len() && is_ascii_alnum(#[trigger] s[i])),
    decreases s.len(),
{
    if s.len() > 0 && is_white_space(s[0]) {
        let t = s.drop_first();
        lemma_trim_start_keeps_alnum(t);
        assert(trim_start(s) == trim_start(t));
        if exists|i: int| 0 <= i < s.len() && is_ascii_alnum(#[trigger] s[i]) {
            let i = choose|i: int| 0 <= i < s.len() && is_ascii_alnum(#[trigger] s[i]);
            assert(i > 0);
            assert(is_ascii_alnum(t[i - 1]));
            let j = choose|j: int| 0 <= j < trim_start(t).len() && is_ascii_alnum(#[trigger] trim_start(t)[j]);
            assert(is_ascii_alnum(trim_start(s)[j]));
        }
        if exists|i: int| 0 <= i < trim_start(s).len() && is_ascii_alnum(#[trigger] trim_start(s)[i]) {
            let j = choose|j: int| 0 <= j < trim_start(s).len() && is_ascii_alnum(#[trigger] trim_start(s)[j]);
            assert(is_ascii_alnum(trim_start(t)[j]));
            let i = choose|i: int| 0 <= i < t.len() && is_ascii_alnum(#[trigger] t[i]);
            assert(is_ascii_alnum(s[i + 1]));
        }
    } else {
        assert(trim_start(s) == s);
    }
}

proof fn lemma_trim_end_keeps_alnum(s: Seq<char>)
    ensures
        (exists|i: int| 0 <= i < trim_end(s).len() && is_ascii_alnum(#[trigger] trim_end(s)[i]))
            <==> (exists|i: int| 0 <= i < s.len() && is_ascii_alnum(#[trigger] s[i])),
    decreases s.len(),
{
    if s.len() > 0 && is_white_space(s.last()) {
        let t = s.drop_last();
        lemma_trim_end_keeps_alnum(t);
        assert(trim_end(s) == trim_end(t));
        if exists|i: int| 0 <= i < s.len() && is_ascii_alnum(#[trigger] s[i]) {
            let i = choose|i: int| 0 <= i < s.len() && is_ascii_alnum(#[trigger] s[i]);
            assert(i < s.len() - 1);
            assert(is_ascii_alnum(t[i]));
            let j = choose|j: int| 0 <= j < trim_end(t).len() && is_ascii_alnum(#[trigger] trim_end(t)[j]);
            assert(is_ascii_alnum(trim_end(s)[j]));
        }
        if exists|i: int| 0 <= i < trim_end(s).len() && is_ascii_alnum(#[trigger] trim_end(s)[i]) {
            let j = choose|j: int| 0 <= j < trim_end(s).len() && is_ascii_alnum(#[trigger] trim_end(s)[j]);
            assert(is_ascii_alnum(trim_end(t)[j]));
            let i = choose|i: int| 0 <= i < t.len() && is_ascii_alnum(#[trigger] t[i]);
            assert(is_ascii_alnum(s[i]));
        }
    } else {
        assert(trim_end(s) == s);
    }
}

/// The text from the first letter or digit on is a suffix that starts with a
/// letter or digit, and it is empty only when there is none.
proof fn lemma_from_first_alnum(s: Seq<char>)
    ensures
        from_first_alnum(s).len() <= s.len(),
        from_first_alnum(s) == s.subrange(s.len() - from_first_alnum(s).len(), s.len() as int),
        from_first_alnum(s).len() > 0 ==> is_ascii_alnum(from_first_alnum(s)[0]),
        from_first_alnum(s).len() > 0 <==> (exists|i: int|
            0 <= i < s.len() && is_ascii_alnum(#[trigger] s[i])),
    decreases s.len(),
{
    if s.len() == 0 || is_ascii_alnum(s[0]) {
        assert(s.subrange(0, s.len() as int) =~= s);
    } else {
        let t = s.drop_first();
        lemma_from_first_alnum(t);
        assert(t.subrange(t.len() - from_first_alnum(s).len(), t.len() as int) =~= s.subrange(
            s.len() - from_first_alnum(s).len(),
            s.len() as int,
        ));
        if exists|i: int| 0 <= i < s.len() && is_ascii_alnum(#[trigger] s[i]) {
            let i = choose|i: int| 0 <= i < s.len() && is_ascii_alnum(#[trigger] s[i]);
            assert(is_ascii_alnum(t[i - 1]));
        }
        if exists|i: int| 0 <= i < t.len() && is_ascii_alnum(#[trigger] t[i]) {
            let i = choose|i: int| 0 <= i < t.len() && is_ascii_alnum(#[trigger] t[i]);
            assert(is_ascii_alnum(s[i + 1]));
        }
    }
}

/// Dropping trailing dashes keeps a prefix, and keeps the first character
/// when that is not a dash.
proof fn lemma_trim_dashes_end(s: Seq<char>)
    ensures
        trim_dashes_end(s).len() <= s.len(),
        trim_dashes_end(s) == s.take(trim_dashes_end(s).len() as int),
        s.len() > 0 && s[0] != '-' ==> trim_dashes_end(s).len() >= 1,
    decreases s.len(),
{
    if s.len() > 0 && s.last() == '-' {
        lemma_trim_dashes_end(s.drop_last());
        assert(s.drop_last().take(trim_dashes_end(s).len() as int) =~= s.take(
            trim_dashes_end(s).len() as int,
        ));
    } else {
        assert(s.take(s.len() as int) =~= s);
    }
}

/// A name can be suggested exactly when the input holds an ASCII letter or
/// digit, and a suggested name is always a valid profile name.
pub proof fn suggestion_exists_iff_alnum(input: Seq<char>)
    ensures
        suggestion(input) is Some <==> (exists|i: int|
            0 <= i < input.len() && is_ascii_alnum(#[trigger] input[i])),
        suggestion(input) matches Some(f) ==> valid_name(f),
{
    let t = trim(input);
    lemma_trim_keeps_alnum(input);
    lemma_cleaned(t);
    let c = cleaned(t);
    lemma_from_first_alnum(c);
    let out = from_first_alnum(c);
    if out.len() > 0 {
        let cut = if out.len() <= MAX_LEN {
            out
        } else {
            out.take(MAX_LEN as int)
        };
        assert(cut[0] == out[0]);
        lemma_trim_dashes_end(cut);
        let fixed = trim_dashes_end(cut);
        assert forall|i: int| 0 <= i < fixed.len() implies is_name_char(#[trigger] fixed[i]) by {
            assert(fixed[i] == cut[i]);
            assert(cut[i] == out[i]);
            assert(out[i] == c[c.len() - out.len() + i]);
        }
        assert(fixed[0] == out[0]);
        assert(valid_name(fixed));
    }
}

/// `parts` joined with `sep` between neighbours.
pub open spec fn joined(parts: Seq<Seq<char>>, sep: Seq<char>) -> Seq<char>
    decreases parts.len(),
{
    if parts.len() == 0 {
        Seq::empty()
    } else if parts.len() == 1 {
        parts[0]
    } else {
        joined(parts.drop_last(), sep) + sep + parts.last()
    }
}

/// "A, B, C" for messages.
pub fn join(names: &[&str]) -> (r: String)
    ensures
        r@ == joined(names@.map_values(|s: &str| s@), ", "@),
{
    let ghost parts = names@.map_values(|s: &str| s@);
    let mut out = String::new();
    let mut i: usize = 0;
    while i < names.len()
        invariant
            i <= names@.len(),
            parts == names@.map_values(|s: &str| s@),
            out@ == joined(parts.take(i as int), ", "@),
        decreases names.len() - i,
    {
        assert(parts.take(i + 1).drop_last() =~= parts.take(i as int));
        if i > 0 {
            push_str(&mut out, ", ");
        } else {
            assert(out@ =~= Seq::<char>::empty());
        }
        push_str(&mut out, names[i]);
        if i == 0 {
            assert(out@ =~= parts.take(1)[0]);
        }
        i = i + 1;
    }
    assert(parts.take(names@.len() as int) =~= parts);
    out
}

/// A valid profile name is a safe folder name: not empty, not `.` or `..`,
/// without `/`, white space or quotes, and not starting with a dash.
pub proof fn valid_names_are_safe(name: Seq<char>)
    requires
        valid_name(name),
    ensures
        name.len() > 0,
        name != "."@,
        name != ".."@,
        !name.contains('/'),
        !name.contains(' '),
        !name.contains('"'),
        !name.contains('\''),
        forall|i: int| 0 <= i < name.len() ==> !is_white_space(#[trigger] name[i]),
        name[0] != '-',
        name[0] != '.',
{
    reveal_strlit(".");
    reveal_strlit("..");
    assert(name[0] != "."@[0]);
    assert(name[0] != ".."@[0]);
    assert forall|i: int| 0 <= i < name.len() implies !is_white_space(#[trigger] name[i]) by {
        assert(is_name_char(name[i]));
    }
}


/// No two dashes in a row.
pub open spec fn single_dashes(s: Seq<char>) -> bool {
    forall|i: int| 0 <= i < s.len() - 1 ==> !(#[trigger] s[i] == '-' && s[i + 1] == '-')
}

proof fn lemma_cleaned_single_dashes(s: Seq<char>)
    ensures
        single_dashes(cleaned(s)),
    decreases s.len(),
{
    if s.len() > 0 {
        lemma_cleaned_single_dashes(s.drop_last());
        let before = cleaned(s.drop_last());
        let c = cleaned(s);
        assert forall|i: int| 0 <= i < c.len() - 1 implies !(#[trigger] c[i] == '-' && c[i + 1]
            == '-') by {
            if i + 1 < before.len() {
                assert(c[i] == before[i] && c[i + 1] == before[i + 1]);
            } else {
                assert(c[i] == before[i]);
                assert(before.last() == before[i]);
            }
        }
    }
}

proof fn lemma_from_first_alnum_single_dashes(s: Seq<char>)
    requires
        single_dashes(s),
    ensures
        single_dashes(from_first_alnum(s)),
    decreases s.len(),
{
    if s.len() > 0 && !is_ascii_alnum(s[0]) {
        let t = s.drop_first();
        assert forall|i: int| 0 <= i < t.len() - 1 implies !(#[trigger] t[i] == '-' && t[i + 1]
            == '-') by {
            assert(t[i] == s[i + 1] && t[i + 1] == s[i + 2]);
        }
        lemma_from_first_alnum_single_dashes(t);
    }
}

proof fn lemma_trim_dashes_end_prefix(s: Seq<char>)
    ensures
        trim_dashes_end(s).len() <= s.len(),
        trim_dashes_end(s) == s.take(trim_dashes_end(s).len() as int),
        trim_dashes_end(s).len() > 0 ==> trim_dashes_end(s).last() != '-',
    decreases s.len(),
{
    if s.len() > 0 && s.last() == '-' {
        lemma_trim_dashes_end_prefix(s.drop_last());
        assert(s.drop_last().take(trim_dashes_end(s).len() as int) =~= s.take(
            trim_dashes_end(s).len() as int,
        ));
    } else {
        assert(s.take(s.len() as int) =~= s);
    }
}

/// A valid name with no two dashes in a row and none at its end is its own
/// suggestion.
proof fn lemma_fixed_name_suggests_itself(v: Seq<char>)
    requires
        valid_name(v),
        single_dashes(v),
        v.last() != '-',
    ensures
        suggestion(v) == Some(v),
{
    valid_names_are_safe(v);
    assert(trim_start(v) == v);
    assert(!is_white_space(v[v.len() - 1]));
    assert(trim_end(v) == v);
    lemma_valid_cleaned(v);
    assert(from_first_alnum(v) == v);
    assert(trim_dashes_end(v) == v);
}

proof fn lemma_valid_cleaned(v: Seq<char>)
    requires
        forall|i: int| 0 <= i < v.len() ==> is_name_char(#[trigger] v[i]),
        single_dashes(v),
    ensures
        cleaned(v) == v,
    decreases v.len(),
{
    if v.len() > 0 {
        let t = v.drop_last();
        assert forall|i: int| 0 <= i < t.len() implies is_name_char(#[trigger] t[i]) by {
            assert(t[i] == v[i]);
        }
        assert forall|i: int| 0 <= i < t.len() - 1 implies !(#[trigger] t[i] == '-' && t[i + 1]
            == '-') by {
            assert(t[i] == v[i] && t[i + 1] == v[i + 1]);
        }
        lemma_valid_cleaned(t);
        let c = v.last();
        assert(is_name_char(v[v.len() - 1]));
        if c == '-' && t.len() > 0 {
            assert(v[v.len() - 2] == t.last());
        }
        assert(t.push(c) =~= v);
    }
}

/// A suggested name is suggested unchanged again: fixing a name twice gives
/// what fixing it once gives.
pub proof fn suggestion_is_stable(input: Seq<char>)
    requires
        suggestion(input) is Some,
    ensures
        suggestion(suggestion(input)->0) == suggestion(input),
{
    let out = from_first_alnum(cleaned(trim(input)));
    lemma_cleaned_single_dashes(trim(input));
    lemma_from_first_alnum_single_dashes(cleaned(trim(input)));
    let cut = if out.len() <= MAX_LEN {
        out
    } else {
        out.take(MAX_LEN as int)
    };
    assert forall|i: int| 0 <= i < cut.len() - 1 implies !(#[trigger] cut[i] == '-' && cut[i + 1]
        == '-') by {
        assert(cut[i] == out[i] && cut[i + 1] == out[i + 1]);
    }
    let fixed = trim_dashes_end(cut);
    lemma_trim_dashes_end_prefix(cut);
    assert forall|i: int| 0 <= i < fixed.len() - 1 implies !(#[trigger] fixed[i] == '-'
        && fixed[i + 1] == '-') by {
        assert(fixed[i] == cut[i] && fixed[i + 1] == cut[i + 1]);
    }
    lemma_fixed_name_suggests_itself(fixed);
}

/// A character a profile name may hold, the list written out: an ASCII
/// letter or digit, `.`, `_` or `-`.
pub open spec fn allowed_in_names(c: char) -> bool {
    ||| 'a' <= c && c <= 'z'
    ||| 'A' <= c && c <= 'Z'
    ||| '0' <= c && c <= '9'
    ||| c == '.'
    ||| c == '_'
    ||| c == '-'
}

/// A valid profile name is 1 to 64 characters long, starts with an ASCII
/// letter or digit, and holds nothing but ASCII letters, digits, `.`, `_`
/// and `-` (so "Work+Home" is no name); and every such text is one.
pub proof fn names_hold_only_letters_digits_dots_underscores_dashes(s: Seq<char>)
    ensures
        valid_name(s) <==> {
            &&& 1 <= s.len() <= 64
            &&& ('a' <= s[0] && s[0] <= 'z') || ('A' <= s[0] && s[0] <= 'Z') || ('0' <= s[0]
                && s[0] <= '9')
            &&& forall|i: int| 0 <= i < s.len() ==> allowed_in_names(#[trigger] s[i])
        },
{
    assert(forall|i: int| 0 <= i < s.len() ==> (is_name_char(s[i]) <==> allowed_in_names(s[i])));
}

/// A suggested name holds nothing but ASCII letters, digits, `.`, `_` and
/// `-`: whatever else the input holds is dropped or made a dash.
pub proof fn suggestions_hold_only_allowed_characters(input: Seq<char>)
    requires
        suggestion(input) is Some,
    ensures
        forall|i: int|
            0 <= i < suggestion(input)->0.len() ==> allowed_in_names(
                #[trigger] suggestion(input)->0[i],
            ),
{
    names_hold_only_letters_digits_dots_underscores_dashes(suggestion(input)->0);
}

} // verus!
