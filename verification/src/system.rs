//! The decisions around the real side effects (starting Signal, installing
//! the snap): which arguments Signal gets, and what an installer run came to.
//! The processes themselves are run by the application.

use crate::names::joined;
use crate::paths::{path_join, Paths};
use crate::text::{chars_of, lines, lines_of, push_chars, push_str, texts, trim, trim_chars};
use vstd::prelude::*;

verus! {

broadcast use vstd::seq_lib::group_seq_properties;

/// The arguments Signal is started with for a profile: its data directory,
/// then the link if there is one.
pub fn profile_args(paths: &Paths, name: &str, link: Option<&str>) -> (r: Vec<String>)
    ensures
        r@.len() == if link is Some { 2int } else { 1int },
        r@[0]@ == "--user-data-dir="@ + path_join(paths.signal_base@, name@),
        link matches Some(l) ==> r@[1]@ == l@,
{
    let mut first = "--user-data-dir=".to_owned();
    let dir = paths.profile_dir(name);
    push_str(&mut first, dir.as_str());
    let mut args: Vec<String> = Vec::new();
    args.push(first);
    match link {
        Some(l) => args.push(l.to_owned()),
        None => {},
    }
    args
}

/// The arguments the default Signal is started with: only the link, if any.
pub fn default_args(link: Option<&str>) -> (r: Vec<String>)
    ensures
        r@.len() == if link is Some { 1int } else { 0int },
        link matches Some(l) ==> r@[0]@ == l@,
{
    let mut args: Vec<String> = Vec::new();
    match link {
        Some(l) => args.push(l.to_owned()),
        None => {},
    }
    args
}

#[derive(Clone, Debug, PartialEq)]
pub enum InstallOutcome {
    Installed,
    Cancelled,
    Failed(String),
}

/// The lines that hold more than white space, in order.
pub open spec fn non_blank(ls: Seq<Seq<char>>) -> Seq<Seq<char>>
    decreases ls.len(),
{
    if ls.len() == 0 {
        ls
    } else if trim(ls.last()).len() == 0 {
        non_blank(ls.drop_last())
    } else {
        non_blank(ls.drop_last()).push(ls.last())
    }
}

/// The last `n` non-blank lines of a text, joined with `\n`.
pub open spec fn last_lines_of(text: Seq<char>, n: nat) -> Seq<char> {
    let kept = non_blank(lines(text));
    let from = if kept.len() >= n {
        kept.len() - n
    } else {
        0
    };
    joined(kept.skip(from), "\n"@)
}

/// The last `n` non-empty lines, for showing a failed command's output.
pub fn last_lines(text: &str, n: usize) -> (r: String)
    ensures
        r@ == last_lines_of(text@, n as nat),
{
    let ls = lines_of(&chars_of(text));
    let ghost all = lines(text@);
    let mut kept: Vec<Vec<char>> = Vec::new();
    let mut i: usize = 0;
    while i < ls.len()
        invariant
            i <= ls@.len() == all.len(),
            all == lines(text@),
            forall|j: int| 0 <= j < ls@.len() ==> #[trigger] ls@[j]@ == all[j],
            kept@.len() == non_blank(all.take(i as int)).len(),
            forall|j: int|
                0 <= j < kept@.len() ==> #[trigger] kept@[j]@ == non_blank(all.take(i as int))[j],
        decreases ls.len() - i,
    {
        assert(all.take(i + 1).drop_last() =~= all.take(i as int));
        assert(ls@[i as int]@ == all[i as int]);
        if trim_chars(&ls[i]).len() > 0 {
            let mut copy: Vec<char> = Vec::new();
            let mut k: usize = 0;
            while k < ls[i].len()
                invariant
                    i < ls@.len(),
                    k <= ls@[i as int]@.len(),
                    copy@ == ls@[i as int]@.take(k as int),
                decreases ls@[i as int]@.len() - k,
            {
                copy.push(ls[i][k]);
                k = k + 1;
            }
            assert(copy@ =~= ls@[i as int]@);
            kept.push(copy);
        }
        i = i + 1;
    }
    assert(all.take(all.len() as int) =~= all);
    let ghost kept_spec = non_blank(all);
    let from: usize = if kept.len() >= n {
        kept.len() - n
    } else {
        0
    };
    let ghost tail = kept_spec.skip(from as int);
    let mut out = String::new();
    let mut j: usize = from;
    assert(tail.take(0) =~= Seq::<Seq<char>>::empty());
    while j < kept.len()
        invariant
            from <= j <= kept@.len() == kept_spec.len(),
            forall|k: int| 0 <= k < kept@.len() ==> #[trigger] kept@[k]@ == kept_spec[k],
            tail == kept_spec.skip(from as int),
            out@ == joined(tail.take(j - from), "\n"@),
        decreases kept.len() - j,
    {
        assert(tail.take(j - from + 1).drop_last() =~= tail.take(j - from));
        assert(tail.take(j - from + 1).last() == kept@[j as int]@);
        if j > from {
            push_str(&mut out, "\n");
        } else {
            assert(out@ =~= Seq::<char>::empty());
        }
        push_chars(&mut out, kept[j].as_slice(), 0, kept[j].len());
        assert(kept@[j as int]@.subrange(0, kept@[j as int]@.len() as int) =~= kept@[j as int]@);
        if j == from {
            assert(out@ =~= tail.take(1)[0]);
        }
        j = j + 1;
    }
    assert(tail.take(kept@.len() - from) =~= tail);
    out
}

/// What an install came to: installed if Signal is there afterwards;
/// otherwise cancelled when pkexec's authentication was dismissed (126) or
/// not authorised (127); otherwise failed, with the last five non-blank
/// lines of the installer's error output.
pub fn install_outcome(installed_after: bool, exit_code: Option<i32>, stderr: &str) -> (r:
    InstallOutcome)
    ensures
        installed_after ==> r == InstallOutcome::Installed,
        !installed_after && (exit_code == Some(126i32) || exit_code == Some(127i32)) ==> r
            == InstallOutcome::Cancelled,
        !installed_after && !(exit_code == Some(126i32) || exit_code == Some(127i32)) ==> (r matches InstallOutcome::Failed(m) && m@ == last_lines_of(stderr@, 5)),
{
    if installed_after {
        return InstallOutcome::Installed;
    }
    match exit_code {
        Some(126) | Some(127) => InstallOutcome::Cancelled,
        _ => InstallOutcome::Failed(last_lines(stderr, 5)),
    }
}

/// How Signal is installed other than as a snap, if it is: "Flatpak" when
/// Flatpak knows it, else "apt" when `/opt/Signal/signal-desktop` exists.
pub fn other_install(flatpak: bool, apt: bool) -> (r: Option<&'static str>)
    ensures
        flatpak ==> (r matches Some(s) && s@ == "Flatpak"@),
        !flatpak && apt ==> (r matches Some(s) && s@ == "apt"@),
        !flatpak && !apt ==> r is None,
{
    if flatpak {
        Some("Flatpak")
    } else if apt {
        Some("apt")
    } else {
        None
    }
}

/// The result holds at most `n` lines' worth: never more than `n` kept
/// lines are joined.
pub proof fn last_lines_keeps_at_most_n(text: Seq<char>, n: nat)
    ensures
        ({
            let kept = non_blank(lines(text));
            let from = if kept.len() >= n {
                kept.len() - n
            } else {
                0
            };
            kept.skip(from).len() <= n
        }),
{
}

} // verus!
