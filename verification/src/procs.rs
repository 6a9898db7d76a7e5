//! Which profiles have a running Signal instance, from the command lines in
//! `/proc/<pid>/cmdline`.
//!
//! A command line is its arguments separated by NUL bytes. Signal (Chromium)
//! rewrites its own into one space-joined string instead, so when the first
//! NUL-separated piece is not itself a `signal-desktop` path but holds
//! spaces, that piece is split at its spaces.

use crate::components::{is_same_path, path_components, same_components, same_path, views};
use crate::text::{split, split_bytes};
use vstd::prelude::*;
use vstd::utf8::{decode_utf8, valid_utf8};

verus! {

broadcast use vstd::seq_lib::group_seq_properties;

/// ASCII text as bytes.
pub open spec fn ascii_bytes(s: Seq<char>) -> Seq<u8> {
    s.map_values(|c: char| c as u8)
}

/// The bytes after the last `/` of a path.
pub open spec fn base_name(path: Seq<u8>) -> Seq<u8>
    decreases path.len(),
{
    if path.len() == 0 || path.last() == 47u8 {
        Seq::empty()
    } else {
        base_name(path.drop_last()).push(path.last())
    }
}

/// A path without the separators and `.` components at its end (which
/// `Path::file_name` skips).
pub open spec fn without_trailing_dots(path: Seq<u8>) -> Seq<u8>
    decreases path.len(),
{
    if path.len() > 0 && path.last() == 47u8 {
        without_trailing_dots(path.drop_last())
    } else if path.len() >= 2 && path.last() == 46u8 && path[path.len() - 2] == 47u8 {
        without_trailing_dots(path.drop_last().drop_last())
    } else {
        path
    }
}

/// The program is a `signal-desktop` binary: the file name of its path is
/// `signal-desktop`.
pub open spec fn is_signal_program(arg0: Seq<u8>) -> bool {
    base_name(without_trailing_dots(arg0)) == ascii_bytes("signal-desktop"@)
}

/// The arguments of a command line (see the module comment for the
/// space-joined layout).
pub open spec fn arguments(raw: Seq<u8>) -> Seq<Seq<u8>> {
    let pieces = split(raw, 0u8);
    if is_signal_program(pieces[0]) || !pieces[0].contains(32u8) {
        pieces
    } else {
        split(pieces[0], 32u8) + pieces.drop_first()
    }
}

/// What follows `--user-data-dir=` in the first argument that starts with it.
pub open spec fn data_dir_arg(args: Seq<Seq<u8>>) -> Option<Seq<u8>>
    decreases args.len(),
{
    if args.len() == 0 {
        None
    } else if args[0].len() >= 16 && args[0].take(16) == ascii_bytes("--user-data-dir="@) {
        Some(args[0].skip(16))
    } else {
        data_dir_arg(args.drop_first())
    }
}

/// The command line is a Signal process.
pub open spec fn runs_signal(raw: Seq<u8>) -> bool {
    is_signal_program(arguments(raw)[0])
}

/// The data directory a Signal process was started with, if any.
pub open spec fn signal_data_dir(raw: Seq<u8>) -> Option<Seq<u8>> {
    data_dir_arg(arguments(raw))
}

/// `String::from_utf8_lossy`: the text of bytes, with each invalid sequence
/// replaced by U+FFFD.
pub uninterp spec fn utf8_lossy(bytes: Seq<u8>) -> Seq<char>;

/// Calls `String::from_utf8_lossy`. The contract names its result, and says
/// what its documentation says of valid UTF-8: the text is decoded unchanged.
#[verifier::external_body]
fn lossy_text(bytes: &[u8]) -> (s: String)
    ensures
        s@ == utf8_lossy(bytes@),
        valid_utf8(bytes@) ==> s@ == decode_utf8(bytes@),
{
    String::from_utf8_lossy(bytes).into_owned()
}

/// What is running: the default Signal (a Signal process without
/// `--user-data-dir=`), and the data directories of the others.
#[derive(Clone, Debug, PartialEq)]
pub struct Running {
    pub default: bool,
    pub data_dirs: Vec<String>,
}

/// Some command line is a Signal process without a data directory.
pub open spec fn default_runs(cmdlines: Seq<Seq<u8>>) -> bool {
    exists|i: int|
        0 <= i < cmdlines.len() && runs_signal(#[trigger] cmdlines[i]) && signal_data_dir(
            cmdlines[i],
        ) is None
}

/// The command line names a data directory that is the same path as `dir`
/// (read as UTF-8, invalid bytes replaced).
pub open spec fn names_dir(raw: Seq<u8>, dir: Seq<char>) -> bool {
    match signal_data_dir(raw) {
        Some(d) => same_path(utf8_lossy(d), dir),
        None => false,
    }
}

/// The command line is a Signal process whose data directory reads `text`.
pub open spec fn gives_dir(raw: Seq<u8>, text: Seq<char>) -> bool {
    runs_signal(raw) && match signal_data_dir(raw) {
        Some(d) => utf8_lossy(d) == text,
        None => false,
    }
}

/// One of the data directories `dirs` is the same path as `dir`.
pub open spec fn runs_in(dirs: Seq<String>, dir: Seq<char>) -> bool {
    exists|k: int| 0 <= k < dirs.len() && same_path(#[trigger] dirs[k]@, dir)
}

/// Some command line is a Signal process whose data directory is the same
/// path as `dir`.
pub open spec fn dir_runs(cmdlines: Seq<Seq<u8>>, dir: Seq<char>) -> bool {
    exists|i: int|
        0 <= i < cmdlines.len() && runs_signal(#[trigger] cmdlines[i]) && names_dir(
            cmdlines[i],
            dir,
        )
}

impl Running {
    /// A Signal process runs with this data directory (the same path, as
    /// `Path`'s `==` compares paths).
    pub fn contains(&self, dir: &str) -> (r: bool)
        ensures
            r == runs_in(self.data_dirs@, dir@),
    {
        let mut i: usize = 0;
        while i < self.data_dirs.len()
            invariant
                i <= self.data_dirs@.len(),
                forall|k: int| 0 <= k < i ==> !same_path(#[trigger] self.data_dirs@[k]@, dir@),
            decreases self.data_dirs.len() - i,
        {
            if is_same_path(self.data_dirs[i].as_str(), dir) {
                return true;
            }
            i = i + 1;
        }
        false
    }
}

/// Whether a `/proc` entry name is a process id (all ASCII digits).
pub fn is_pid_name(name: &[u8]) -> (r: bool)
    ensures
        r == forall|i: int| 0 <= i < name@.len() ==> 48 <= #[trigger] name@[i] <= 57,
{
    let mut i: usize = 0;
    while i < name.len()
        invariant
            i <= name@.len(),
            forall|k: int| 0 <= k < i ==> 48 <= #[trigger] name@[k] <= 57,
        decreases name.len() - i,
    {
        if name[i] < 48 || name[i] > 57 {
            assert(!(48 <= name@[i as int] <= 57));
            return false;
        }
        i = i + 1;
    }
    true
}

fn ends_with_signal_desktop(arg: &Vec<u8>) -> (r: bool)
    ensures
        r == is_signal_program(arg@),
{
    let expected: [u8; 14] = [115, 105, 103, 110, 97, 108, 45, 100, 101, 115, 107, 116, 111, 112];
    proof {
        reveal_strlit("signal-desktop");
        assert(ascii_bytes("signal-desktop"@) =~= expected@);
    }
    let mut n = arg.len();
    assert(arg@.take(n as int) =~= arg@);
    while n > 0 && (arg[n - 1] == 47 || (n >= 2 && arg[n - 1] == 46 && arg[n - 2] == 47))
        invariant
            n <= arg@.len(),
            without_trailing_dots(arg@.take(n as int)) == without_trailing_dots(arg@),
        decreases n,
    {
        if arg[n - 1] == 47 {
            assert(arg@.take(n as int).drop_last() =~= arg@.take(n - 1));
            n = n - 1;
        } else {
            assert(arg@.take(n as int).drop_last().drop_last() =~= arg@.take(n - 2));
            n = n - 2;
        }
    }
    let ghost t = arg@.take(n as int);
    assert(without_trailing_dots(t) == t);
    let mut start: usize = n;
    assert(t.take(n as int) =~= t);
    assert(t.subrange(n as int, n as int) =~= Seq::<u8>::empty());
    assert(base_name(t) == base_name(t.take(n as int)) + t.subrange(n as int, n as int));
    while start > 0 && arg[start - 1] != 47
        invariant
            start <= n <= arg@.len(),
            t == arg@.take(n as int),
            without_trailing_dots(arg@) == t,
            base_name(t) == base_name(t.take(start as int)) + t.subrange(start as int, n as int),
        decreases start,
    {
        assert(t.take(start as int).drop_last() =~= t.take(start - 1));
        assert(t[start - 1] == arg@[start - 1]);
        assert(base_name(t.take(start - 1)).push(t[start - 1]) + t.subrange(start as int, n as int)
            =~= base_name(t.take(start - 1)) + t.subrange(start - 1, n as int));
        start = start - 1;
    }
    if start > 0 {
        assert(t.take(start as int).last() == 47u8);
    }
    assert(base_name(t) =~= t.subrange(start as int, n as int));
    if n - start != 14 {
        assert(base_name(t).len() != expected@.len());
        return false;
    }
    let mut k: usize = 0;
    while k < 14
        invariant
            n - start == 14,
            start <= n <= arg@.len(),
            t == arg@.take(n as int),
            without_trailing_dots(arg@) == t,
            k <= 14,
            base_name(t) == t.subrange(start as int, n as int),
            ascii_bytes("signal-desktop"@) == expected@,
            forall|j: int| 0 <= j < k ==> t[start + j] == expected@[j],
        decreases 14 - k,
    {
        if arg[start + k] != expected[k] {
            assert(t.subrange(start as int, n as int)[k as int] != expected@[k as int]);
            assert(base_name(t) != expected@);
            return false;
        }
        k = k + 1;
    }
    assert(t.subrange(start as int, n as int) =~= expected@);
    true
}

fn contains_space(arg: &Vec<u8>) -> (r: bool)
    ensures
        r == arg@.contains(32u8),
{
    let mut i: usize = 0;
    while i < arg.len()
        invariant
            i <= arg@.len(),
            forall|k: int| 0 <= k < i ==> arg@[k] != 32u8,
        decreases arg.len() - i,
    {
        if arg[i] == 32 {
            return true;
        }
        i = i + 1;
    }
    false
}

/// The arguments of a command line.
fn arguments_of(raw: &[u8]) -> (r: Vec<Vec<u8>>)
    ensures
        r@.len() == arguments(raw@).len(),
        forall|i: int| 0 <= i < r@.len() ==> #[trigger] r@[i]@ == arguments(raw@)[i],
{
    let pieces = split_bytes(raw, 0);
    proof {
        crate::text::lemma_split_nonempty(raw@, 0u8);
    }
    if ends_with_signal_desktop(&pieces[0]) || !contains_space(&pieces[0]) {
        return pieces;
    }
    let words = split_bytes(pieces[0].as_slice(), 32);
    let ghost spec_args = arguments(raw@);
    let mut out: Vec<Vec<u8>> = words;
    let mut i: usize = 1;
    while i < pieces.len()
        invariant
            1 <= i <= pieces@.len(),
            spec_args == split(pieces@[0]@, 32u8) + split(raw@, 0u8).drop_first(),
            pieces@.len() == split(raw@, 0u8).len(),
            forall|k: int| 0 <= k < pieces@.len() ==> #[trigger] pieces@[k]@ == split(raw@, 0u8)[k],
            out@.len() == split(pieces@[0]@, 32u8).len() + i - 1,
            forall|k: int| 0 <= k < out@.len() ==> #[trigger] out@[k]@ == spec_args[k],
        decreases pieces.len() - i,
    {
        let mut copy: Vec<u8> = Vec::new();
        let mut j: usize = 0;
        while j < pieces[i].len()
            invariant
                i < pieces@.len(),
                j <= pieces@[i as int]@.len(),
                copy@ == pieces@[i as int]@.take(j as int),
            decreases pieces[i as int]@.len() - j,
        {
            copy.push(pieces[i][j]);
            j = j + 1;
        }
        assert(copy@ =~= pieces@[i as int]@);
        out.push(copy);
        i = i + 1;
    }
    out
}

proof fn lemma_arguments_nonempty(raw: Seq<u8>)
    ensures
        arguments(raw).len() >= 1,
{
    crate::text::lemma_split_nonempty(raw, 0u8);
    let pieces = split(raw, 0u8);
    crate::text::lemma_split_nonempty(pieces[0], 32u8);
}

/// The data directory argument, if any.
fn data_dir_of(args: &Vec<Vec<u8>>) -> (r: Option<Vec<u8>>)
    ensures
        match r {
            Some(d) => data_dir_arg(args@.map_values(|a: Vec<u8>| a@)) == Some(d@),
            None => data_dir_arg(args@.map_values(|a: Vec<u8>| a@)) is None,
        },
{
    let prefix: [u8; 16] = [45, 45, 117, 115, 101, 114, 45, 100, 97, 116, 97, 45, 100, 105, 114, 61];
    proof {
        reveal_strlit("--user-data-dir=");
        assert(ascii_bytes("--user-data-dir="@) =~= prefix@);
    }
    let ghost all = args@.map_values(|a: Vec<u8>| a@);
    let mut i: usize = 0;
    while i < args.len()
        invariant
            i <= args@.len(),
            all == args@.map_values(|a: Vec<u8>| a@),
            data_dir_arg(all) == data_dir_arg(all.skip(i as int)),
            ascii_bytes("--user-data-dir="@) == prefix@,
        decreases args.len() - i,
    {
        let a = &args[i];
        let mut matches = a.len() >= 16;
        let mut k: usize = 0;
        while matches && k < 16
            invariant
                i < args@.len(),
                a@ == args@[i as int]@,
                k <= 16,
                matches ==> a@.len() >= 16,
                matches ==> forall|j: int| 0 <= j < k ==> a@[j] == prefix@[j],
                !matches ==> !(a@.len() >= 16 && a@.take(16) == prefix@),
            decreases 16 - k,
        {
            if a[k] != prefix[k] {
                assert(a@.take(16)[k as int] != prefix@[k as int]);
                matches = false;
            }
            k = k + 1;
        }
        if matches {
            assert(a@.take(16) =~= prefix@);
        }
        assert(all.skip(i as int)[0] == a@);
        assert(all.skip(i as int).drop_first() =~= all.skip(i + 1));
        if matches {
            let mut rest: Vec<u8> = Vec::new();
            let mut j: usize = 16;
            while j < a.len()
                invariant
                    16 <= j <= a@.len(),
                    rest@ == a@.subrange(16, j as int),
                decreases a.len() - j,
            {
                rest.push(a[j]);
                j = j + 1;
            }
            assert(rest@ =~= a@.skip(16));
            return Some(rest);
        }
        i = i + 1;
    }
    None
}

/// Some command line is a Signal process whose data directory reads `text`.
pub open spec fn given_by(cmdlines: Seq<Seq<u8>>, text: Seq<char>) -> bool {
    exists|m: int| 0 <= m < cmdlines.len() && gives_dir(#[trigger] cmdlines[m], text)
}

/// What a set of command lines says is running: whether the default Signal
/// runs, and the data directories of the others, each path once (the first
/// text met of it).
pub fn scan(cmdlines: &Vec<Vec<u8>>) -> (r: Running)
    ensures
        r.default == default_runs(cmdlines@.map_values(|c: Vec<u8>| c@)),
        forall|dir: Seq<char>|
            runs_in(r.data_dirs@, dir) <==> dir_runs(cmdlines@.map_values(|c: Vec<u8>| c@), dir),
        forall|k: int|
            0 <= k < r.data_dirs@.len() ==> given_by(
                cmdlines@.map_values(|c: Vec<u8>| c@),
                #[trigger] r.data_dirs@[k]@,
            ),
        forall|j: int, k: int|
            0 <= j < k < r.data_dirs@.len() ==> !same_path(
                #[trigger] r.data_dirs@[j]@,
                #[trigger] r.data_dirs@[k]@,
            ),
{
    let ghost raws = cmdlines@.map_values(|c: Vec<u8>| c@);
    let mut default = false;
    let mut dirs: Vec<String> = Vec::new();
    let mut i: usize = 0;
    while i < cmdlines.len()
        invariant
            i <= cmdlines@.len(),
            raws == cmdlines@.map_values(|c: Vec<u8>| c@),
            default == default_runs(raws.take(i as int)),
            forall|dir: Seq<char>| runs_in(dirs@, dir) <==> dir_runs(raws.take(i as int), dir),
            forall|k: int|
                0 <= k < dirs@.len() ==> given_by(raws.take(i as int), #[trigger] dirs@[k]@),
            forall|j: int, k: int|
                0 <= j < k < dirs@.len() ==> !same_path(
                    #[trigger] dirs@[j]@,
                    #[trigger] dirs@[k]@,
                ),
        decreases cmdlines.len() - i,
    {
        let args = arguments_of(cmdlines[i].as_slice());
        proof {
            lemma_arguments_nonempty(raws[i as int]);
            assert(cmdlines@[i as int]@ == raws[i as int]);
            assert(args@.map_values(|a: Vec<u8>| a@) =~= arguments(raws[i as int]));
            assert(raws.take(i + 1) =~= raws.take(i as int).push(raws[i as int]));
        }
        let signal = args.len() > 0 && ends_with_signal_desktop(&args[0]);
        let ghost before_default = default;
        let ghost before_dirs = dirs@;
        let ghost mut added = false;
        let ghost mut found: Option<Seq<char>> = None;
        if signal {
            match data_dir_of(&args) {
                None => {
                    default = true;
                },
                Some(d) => {
                    let text = lossy_text(d.as_slice());
                    let mine = path_components(text.as_str());
                    let mut seen = false;
                    let mut k: usize = 0;
                    while k < dirs.len()
                        invariant
                            k <= dirs@.len(),
                            views(mine@) == crate::components::components(text@),
                            !seen ==> forall|j: int|
                                0 <= j < k ==> !same_path(#[trigger] dirs@[j]@, text@),
                            seen ==> runs_in(dirs@, text@),
                        decreases dirs.len() - k,
                    {
                        let theirs = path_components(dirs[k].as_str());
                        if same_components(&theirs, &mine) {
                            assert(same_path(dirs@[k as int]@, text@));
                            seen = true;
                        }
                        k = k + 1;
                    }
                    proof {
                        found = Some(text@);
                        assert(signal_data_dir(raws[i as int]) == Some(d@));
                    }
                    if !seen {
                        dirs.push(text);
                        proof {
                            added = true;
                        }
                    }
                },
            }
        }
        proof {
            let take_i = raws.take(i as int);
            let take_n = raws.take(i + 1);
            let raw = raws[i as int];
            assert(take_n[i as int] == raw);
            assert forall|j: int| 0 <= j < i implies #[trigger] take_n[j] == take_i[j] by {}
            assert(runs_signal(raw) == signal);
            if default_runs(take_n) {
                let j = choose|j: int|
                    0 <= j < take_n.len() && runs_signal(#[trigger] take_n[j]) && signal_data_dir(
                        take_n[j],
                    ) is None;
                if j < i {
                    assert(runs_signal(take_i[j]));
                }
            }
            if default_runs(take_i) {
                let j = choose|j: int|
                    0 <= j < take_i.len() && runs_signal(#[trigger] take_i[j]) && signal_data_dir(
                        take_i[j],
                    ) is None;
                assert(runs_signal(take_n[j]));
            }
            if default && !before_default {
                assert(runs_signal(take_n[i as int]));
            }
            // The list grew only by the directory met here, where it was new.
            assert(added ==> found is Some && dirs@ == before_dirs.push(dirs@.last())
                && dirs@.last()@ == found->0);
            assert(!added ==> dirs@ == before_dirs);
            assert(found is Some && !added ==> runs_in(before_dirs, found->0));
            assert(signal && signal_data_dir(raw) is Some ==> found == Some(
                utf8_lossy(signal_data_dir(raw)->0),
            ));
            assert(found is Some ==> gives_dir(raw, found->0));
            assert forall|k: int| 0 <= k < before_dirs.len() implies #[trigger] dirs@[k]
                == before_dirs[k] by {}
            assert forall|dir: Seq<char>|
                runs_in(dirs@, dir) <==> dir_runs(take_n, dir) by {
                if dir_runs(take_n, dir) {
                    let j = choose|j: int|
                        0 <= j < take_n.len() && runs_signal(#[trigger] take_n[j])
                            && names_dir(take_n[j], dir);
                    if j < i {
                        assert(runs_signal(take_i[j]));
                        assert(dir_runs(take_i, dir));
                        assert(runs_in(before_dirs, dir));
                        let k = choose|k: int|
                            0 <= k < before_dirs.len() && same_path(#[trigger] before_dirs[k]@, dir);
                        assert(dirs@[k] == before_dirs[k]);
                    } else {
                        let d = signal_data_dir(raw)->0;
                        let t = utf8_lossy(d);
                        if added {
                            assert(dirs@[before_dirs.len() as int]@ == t);
                        } else {
                            let k = choose|k: int|
                                0 <= k < before_dirs.len() && same_path(#[trigger] before_dirs[k]@, t);
                            assert(dirs@[k] == before_dirs[k]);
                            assert(same_path(dirs@[k]@, dir));
                        }
                    }
                }
                if runs_in(dirs@, dir) {
                    let k = choose|k: int| 0 <= k < dirs@.len() && same_path(#[trigger] dirs@[k]@, dir);
                    if k < before_dirs.len() {
                        assert(dirs@[k] == before_dirs[k]);
                        assert(runs_in(before_dirs, dir));
                        let j = choose|j: int|
                            0 <= j < take_i.len() && runs_signal(#[trigger] take_i[j])
                                && names_dir(take_i[j], dir);
                        assert(runs_signal(take_n[j]));
                    } else {
                        assert(runs_signal(take_n[i as int]));
                        assert(names_dir(take_n[i as int], dir));
                    }
                }
            }
            assert forall|k: int| 0 <= k < dirs@.len() implies given_by(take_n, #[trigger] dirs@[k]@) by {
                if k < before_dirs.len() {
                    assert(dirs@[k] == before_dirs[k]);
                    assert(given_by(take_i, before_dirs[k]@));
                    let m = choose|m: int| 0 <= m < take_i.len() && gives_dir(#[trigger] take_i[m], before_dirs[k]@);
                    assert(take_n[m] == take_i[m]);
                } else {
                    assert(gives_dir(take_n[i as int], dirs@[k]@));
                }
            }
            assert forall|j: int, k: int| 0 <= j < k < dirs@.len() implies !same_path(
                #[trigger] dirs@[j]@,
                #[trigger] dirs@[k]@,
            ) by {
                if k < before_dirs.len() {
                    assert(dirs@[k] == before_dirs[k]);
                    assert(dirs@[j] == before_dirs[j]);
                } else {
                    assert(dirs@[j] == before_dirs[j]);
                    assert(!same_path(before_dirs[j]@, dirs@[k]@));
                }
            }
        }
        i = i + 1;
    }
    assert(raws.take(cmdlines@.len() as int) =~= raws);
    Running { default, data_dirs: dirs }
}

/// A process that is not a `signal-desktop` binary never counts as running
/// Signal, whatever its arguments say.
pub proof fn other_programs_never_count(cmdlines: Seq<Seq<u8>>, dir: Seq<char>)
    requires
        forall|i: int| 0 <= i < cmdlines.len() ==> !runs_signal(#[trigger] cmdlines[i]),
    ensures
        !default_runs(cmdlines),
        !dir_runs(cmdlines, dir),
{
}

} // verus!
