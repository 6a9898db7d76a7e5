//! Desktop launchers (`.desktop` files) for profiles: the text this tool
//! writes, and how launchers of a profile (ours, legacy or hand-made) are
//! recognised in the applications folder.

use crate::names::valid_name;
use crate::paths::{file_name, file_name_of, path_join, Paths, SIGNAL_ICON, SNAP_DESKTOP_HINT};
use crate::text::{
    chars_of, has_prefix, lines, lines_of, push_chars, push_str, same_chars, starts_with, unlines, lemma_lines_unlines, plain_line,
};
use vstd::prelude::*;

verus! {

broadcast use vstd::seq_lib::group_seq_properties;

/// A character that the desktop-entry spec would require escaping in the
/// quoted `Exec` argument.
pub open spec fn needs_escaping(c: char) -> bool {
    c == '"' || c == '`' || c == '$' || c == '\\' || c == '%' || c == '\n'
}

pub open spec fn quotable(path: Seq<char>) -> bool {
    forall|i: int| 0 <= i < path.len() ==> !needs_escaping(#[trigger] path[i])
}

/// The `Exec=` line: Signal started with the profile's data directory.
pub open spec fn exec_line(bin: Seq<char>, dir: Seq<char>) -> Seq<char> {
    "Exec=env BAMF_DESKTOP_FILE_HINT="@ + SNAP_DESKTOP_HINT@ + " "@ + bin + " \""@ + (
    "--user-data-dir="@ + dir) + "\" %U"@
}

/// The lines of the launcher for a profile whose data directory is `dir`.
pub open spec fn launcher_lines(bin: Seq<char>, name: Seq<char>, dir: Seq<char>) -> Seq<Seq<char>> {
    seq![
        "[Desktop Entry]"@,
        "Type=Application"@,
        "Name=Signal ("@ + name + ")"@,
        "Comment=Private messaging from your desktop (profile: "@ + name + ")"@,
        exec_line(bin, dir),
        "Icon="@ + SIGNAL_ICON@,
        "Terminal=false"@,
        "StartupWMClass=Signal"@,
        "Categories=Network;InstantMessaging;Chat;"@,
        "X-SnapInstanceName=signal-desktop"@,
        "X-SnapAppName=signal-desktop"@,
        "X-MultiSignal-Profile="@ + name,
    ]
}

/// The launcher text: its lines, each ended by a newline.
pub open spec fn launcher_text(bin: Seq<char>, name: Seq<char>, dir: Seq<char>) -> Seq<char> {
    unlines(launcher_lines(bin, name, dir))
}

/// Appends a line and its newline.
fn push_line(t: &mut String, line: &str, Ghost(ls): Ghost<Seq<Seq<char>>>)
    requires
        old(t)@ == unlines(ls),
    ensures
        final(t)@ == unlines(ls.push(line@)),
{
    push_str(t, line);
    push_str(t, "\n");
    proof {
        reveal_strlit("\n");
        assert(ls.push(line@).drop_last() =~= ls);
        assert(final(t)@ =~= unlines(ls) + line@ + seq!['\n']);
    }
}

/// Why a launcher cannot be written.
#[derive(Clone, Debug, PartialEq)]
pub enum LauncherError {
    /// The profile path holds a character that would need escaping (the path
    /// is given).
    UnsafePath(String),
}

fn quotable_exec(path: &Vec<char>) -> (r: bool)
    ensures
        r == quotable(path@),
{
    let mut i: usize = 0;
    while i < path.len()
        invariant
            i <= path@.len(),
            forall|k: int| 0 <= k < i ==> !needs_escaping(#[trigger] path@[k]),
        decreases path.len() - i,
    {
        let c = path[i];
        if c == '"' || c == '`' || c == '$' || c == '\\' || c == '%' || c == '\n' {
            assert(needs_escaping(path@[i as int]));
            return false;
        }
        i = i + 1;
    }
    true
}

/// Launcher text. Fails if the profile path contains characters that the
/// desktop-entry spec would require escaping (`"` `` ` `` `$` `\` `%`, newline);
/// real home directories never do, so refusing is simpler than escaping.
pub fn render(paths: &Paths, name: &str) -> (r: Result<String, LauncherError>)
    ensures
        match r {
            Ok(text) => quotable(path_join(paths.signal_base@, name@)) && text@ == launcher_text(
                paths.signal_bin@,
                name@,
                path_join(paths.signal_base@, name@),
            ),
            Err(LauncherError::UnsafePath(dir)) => !quotable(path_join(paths.signal_base@, name@))
                && dir@ == path_join(paths.signal_base@, name@),
        },
{
    let dir = paths.profile_dir(name);
    if !quotable_exec(&chars_of(dir.as_str())) {
        return Err(LauncherError::UnsafePath(dir));
    }
    let bin = paths.signal_bin.as_str();
    let mut t = String::new();
    let ghost mut ls: Seq<Seq<char>> = Seq::empty();
    assert(t@ =~= unlines(ls));
    push_line(&mut t, "[Desktop Entry]", Ghost(ls));
    proof { ls = ls.push("[Desktop Entry]"@); }
    push_line(&mut t, "Type=Application", Ghost(ls));
    proof { ls = ls.push("Type=Application"@); }
    let mut line = "Name=Signal (".to_owned();
    push_str(&mut line, name);
    push_str(&mut line, ")");
    push_line(&mut t, line.as_str(), Ghost(ls));
    proof { ls = ls.push(line@); }
    let mut line = "Comment=Private messaging from your desktop (profile: ".to_owned();
    push_str(&mut line, name);
    push_str(&mut line, ")");
    push_line(&mut t, line.as_str(), Ghost(ls));
    proof { ls = ls.push(line@); }
    let mut line = "Exec=env BAMF_DESKTOP_FILE_HINT=".to_owned();
    push_str(&mut line, SNAP_DESKTOP_HINT);
    push_str(&mut line, " ");
    push_str(&mut line, bin);
    push_str(&mut line, " \"");
    push_str(&mut line, "--user-data-dir=");
    push_str(&mut line, dir.as_str());
    push_str(&mut line, "\" %U");
    assert(line@ =~= exec_line(bin@, dir@));
    push_line(&mut t, line.as_str(), Ghost(ls));
    proof { ls = ls.push(line@); }
    let mut line = "Icon=".to_owned();
    push_str(&mut line, SIGNAL_ICON);
    push_line(&mut t, line.as_str(), Ghost(ls));
    proof { ls = ls.push(line@); }
    push_line(&mut t, "Terminal=false", Ghost(ls));
    proof { ls = ls.push("Terminal=false"@); }
    push_line(&mut t, "StartupWMClass=Signal", Ghost(ls));
    proof { ls = ls.push("StartupWMClass=Signal"@); }
    push_line(&mut t, "Categories=Network;InstantMessaging;Chat;", Ghost(ls));
    proof { ls = ls.push("Categories=Network;InstantMessaging;Chat;"@); }
    push_line(&mut t, "X-SnapInstanceName=signal-desktop", Ghost(ls));
    proof { ls = ls.push("X-SnapInstanceName=signal-desktop"@); }
    push_line(&mut t, "X-SnapAppName=signal-desktop", Ghost(ls));
    proof { ls = ls.push("X-SnapAppName=signal-desktop"@); }
    let mut line = "X-MultiSignal-Profile=".to_owned();
    push_str(&mut line, name);
    push_line(&mut t, line.as_str(), Ghost(ls));
    proof {
        ls = ls.push(line@);
        assert(ls =~= launcher_lines(bin@, name@, dir@));
    }
    Ok(t)
}

/// The argument that starts Signal with a profile's data directory.
pub open spec fn data_dir_needle(paths: Paths, name: Seq<char>) -> Seq<char> {
    "--user-data-dir="@ + path_join(paths.signal_base@, name)
}

/// The path ends at `end` of the line: the line ends, or a quote or space
/// follows (so "A" does not match "AB").
pub open spec fn ends_path(line: Seq<char>, end: int) -> bool {
    end == line.len() || line[end] == '"' || line[end] == '\'' || line[end] == ' '
}

/// Scanning the line from `i` for `needle` as `match_indices` does (left to
/// right, matches not overlapping), some match is followed by the end of the
/// path.
pub open spec fn ended_match_from(line: Seq<char>, needle: Seq<char>, i: int) -> bool
    decreases line.len() - i,
{
    if needle.len() == 0 {
        true
    } else if i < 0 || i + needle.len() > line.len() {
        false
    } else if line.subrange(i, i + needle.len()) == needle {
        ends_path(line, i + needle.len()) || ended_match_from(line, needle, i + needle.len())
    } else {
        ended_match_from(line, needle, i + 1)
    }
}

/// Some `Exec=` line of the text starts Signal with this data directory.
pub open spec fn mentions(text: Seq<char>, needle: Seq<char>) -> bool {
    exists|k: int|
        0 <= k < lines(text).len() && starts_with(#[trigger] lines(text)[k], "Exec="@)
            && ended_match_from(lines(text)[k], needle, 0)
}

fn ended_match(line: &Vec<char>, needle: &Vec<char>) -> (r: bool)
    ensures
        r == ended_match_from(line@, needle@, 0),
{
    let m = needle.len();
    if m == 0 {
        return true;
    }
    let n = line.len();
    let mut i: usize = 0;
    while i <= n && m <= n - i
        invariant
            m == needle@.len() >= 1,
            n == line@.len(),
            i <= n + 1,
            ended_match_from(line@, needle@, 0) == ended_match_from(line@, needle@, i as int),
        decreases n - i,
    {
        let mut k: usize = 0;
        let mut same = true;
        while same && k < m
            invariant
                i + m <= n,
                m == needle@.len(),
                n == line@.len(),
                k <= m,
                same ==> forall|j: int| 0 <= j < k ==> line@[i + j] == needle@[j],
                !same ==> line@.subrange(i as int, i + m) != needle@,
            decreases m - k,
        {
            if line[i + k] != needle[k] {
                assert(line@.subrange(i as int, i + m)[k as int] != needle@[k as int]);
                same = false;
            }
            k = k + 1;
        }
        if same {
            assert(line@.subrange(i as int, i + m) =~= needle@);
            let end = i + m;
            if end == n || line[end] == '"' || line[end] == '\'' || line[end] == ' ' {
                return true;
            }
            i = end;
        } else {
            i = i + 1;
        }
    }
    false
}

/// Whether a launcher's text starts Signal with the given data-directory
/// argument in one of its `Exec=` lines.
pub fn exec_mentions(text: &str, needle: &str) -> (r: bool)
    ensures
        r == mentions(text@, needle@),
{
    let ls = lines_of(&chars_of(text));
    let nd = chars_of(needle);
    let exec = chars_of("Exec=");
    let mut k: usize = 0;
    while k < ls.len()
        invariant
            k <= ls@.len() == lines(text@).len(),
            forall|j: int| 0 <= j < ls@.len() ==> #[trigger] ls@[j]@ == lines(text@)[j],
            nd@ == needle@,
            exec@ == "Exec="@,
            forall|j: int|
                0 <= j < k ==> !(starts_with(#[trigger] lines(text@)[j], "Exec="@)
                    && ended_match_from(lines(text@)[j], needle@, 0)),
        decreases ls.len() - k,
    {
        if has_prefix(&ls[k], &exec) && ended_match(&ls[k], &nd) {
            assert(ls@[k as int]@ == lines(text@)[k as int]);
            return true;
        }
        k = k + 1;
    }
    false
}

/// The file name has the extension `desktop` (`Path::extension`: the text
/// after the last `.`, when that `.` is not the first character).
pub open spec fn is_desktop_file_name(name: Seq<char>) -> bool {
    exists|k: int|
        0 < k < name.len() && name[k] == '.' && name.skip(k + 1) == "desktop"@ && forall|j: int|
            k < j < name.len() ==> name[j] != '.'
}

proof fn lemma_desktop_suffix(s: Seq<char>)
    ensures
        is_desktop_file_name(s) <==> (s.len() > 8 && s.skip(s.len() - 8) == ".desktop"@),
{
    reveal_strlit(".desktop");
    reveal_strlit("desktop");
    if is_desktop_file_name(s) {
        let k = choose|k: int|
            0 < k < s.len() && s[k] == '.' && s.skip(k + 1) == "desktop"@ && forall|j: int|
                k < j < s.len() ==> s[j] != '.';
        assert(s.skip(k + 1).len() == 7);
        assert(s.skip(s.len() - 8) =~= ".desktop"@) by {
            assert forall|j: int| 0 <= j < 8 implies s.skip(s.len() - 8)[j] == ".desktop"@[j] by {
                if j > 0 {
                    assert(s.skip(k + 1)[j - 1] == s[k + j]);
                }
            }
        }
    }
    if s.len() > 8 && s.skip(s.len() - 8) == ".desktop"@ {
        let k = s.len() - 8;
        assert(s[k] == s.skip(k)[0]);
        assert(s.skip(k + 1) =~= "desktop"@) by {
            assert forall|j: int| 0 <= j < 7 implies s.skip(k + 1)[j] == "desktop"@[j] by {
                assert(s.skip(k)[j + 1] == ".desktop"@[j + 1]);
            }
        }
        assert forall|j: int| k < j < s.len() implies s[j] != '.' by {
            assert(s.skip(k)[j - k] == ".desktop"@[j - k]);
        }
    }
}

pub fn is_desktop_file(name: &str) -> (r: bool)
    ensures
        r == is_desktop_file_name(name@),
{
    proof {
        lemma_desktop_suffix(name@);
    }
    let v = chars_of(name);
    let n = v.len();
    if n <= 8 {
        return false;
    }
    let mut tail: Vec<char> = Vec::new();
    let mut i: usize = n - 8;
    while i < n
        invariant
            8 < n == v@.len(),
            n - 8 <= i <= n,
            tail@ == v@.subrange(n - 8, i as int),
        decreases n - i,
    {
        tail.push(v[i]);
        i = i + 1;
    }
    assert(tail@ =~= v@.skip(n - 8));
    same_chars(&tail, &chars_of(".desktop"))
}

/// A file in the applications folder: its path, and its text when it is a
/// readable `.desktop` file (`None` when it could not be read, or was not
/// read because it is no launcher).
#[derive(Clone, Debug)]
pub struct DesktopFile {
    pub path: String,
    pub text: Option<String>,
}

/// The file is a launcher of the profile: a `.desktop` file whose text
/// mentions the profile's data directory.
pub open spec fn is_launcher_of(paths: Paths, name: Seq<char>, f: DesktopFile) -> bool {
    &&& is_desktop_file_name(file_name_of(f.path@))
    &&& f.text matches Some(t)
    &&& mentions(t@, data_dir_needle(paths, name))
}

/// The paths of the launchers of a profile among `files`, in order.
pub open spec fn launchers_among(paths: Paths, name: Seq<char>, files: Seq<DesktopFile>) -> Seq<
    Seq<char>,
>
    decreases files.len(),
{
    if files.len() == 0 {
        Seq::empty()
    } else {
        let before = launchers_among(paths, name, files.drop_last());
        if is_launcher_of(paths, name, files.last()) {
            before.push(files.last().path@)
        } else {
            before
        }
    }
}

/// Every `.desktop` file (ours, legacy or hand-made) whose Exec line starts
/// Signal with this profile's data directory, in the order of `files` (the
/// entries of the applications folder).
pub fn find(paths: &Paths, name: &str, files: &[DesktopFile]) -> (r: Vec<String>)
    ensures
        crate::text::texts(r@) == launchers_among(*paths, name@, files@),
{
    let mut needle = "--user-data-dir=".to_owned();
    let dir = paths.profile_dir(name);
    push_str(&mut needle, dir.as_str());
    let mut out: Vec<String> = Vec::new();
    let mut i: usize = 0;
    while i < files.len()
        invariant
            i <= files@.len(),
            needle@ == data_dir_needle(*paths, name@),
            crate::text::texts(out@) == launchers_among(*paths, name@, files@.take(i as int)),
        decreases files.len() - i,
    {
        let f = &files[i];
        assert(files@.take(i + 1).drop_last() =~= files@.take(i as int));
        let hit = match &f.text {
            Some(t) => is_desktop_file(file_name(f.path.as_str()).as_str()) && exec_mentions(
                t.as_str(),
                needle.as_str(),
            ),
            None => false,
        };
        if hit {
            out.push(f.path.clone());
            assert(crate::text::texts(out@) =~= crate::text::texts(out@.drop_last()).push(
                f.path@,
            ));
        }
        i = i + 1;
    }
    assert(files@.take(files@.len() as int) =~= files@);
    out
}

/// The `Name=` of the lines from here on, reading `[Desktop Entry]` group
/// headers as they come.
pub open spec fn entry_name_from(ls: Seq<Seq<char>>, in_entry: bool) -> Option<Seq<char>>
    decreases ls.len(),
{
    if ls.len() == 0 {
        None
    } else if starts_with(ls[0], "["@) {
        entry_name_from(ls.drop_first(), ls[0] == "[Desktop Entry]"@)
    } else if in_entry && starts_with(ls[0], "Name="@) {
        Some(ls[0].skip(5))
    } else {
        entry_name_from(ls.drop_first(), in_entry)
    }
}

/// The name a launcher shows in the app menu.
pub open spec fn menu_name(text: Seq<char>) -> Option<Seq<char>> {
    entry_name_from(lines(text), false)
}

/// The `Name=` shown in the app menu: the untranslated key of the
/// `[Desktop Entry]` group.
pub fn display_name(text: &str) -> (r: Option<String>)
    ensures
        match r {
            Some(n) => menu_name(text@) == Some(n@),
            None => menu_name(text@) is None,
        },
{
    let ls = lines_of(&chars_of(text));
    let bracket = chars_of("[");
    let entry = chars_of("[Desktop Entry]");
    let key = chars_of("Name=");
    proof {
        reveal_strlit("Name=");
    }
    let ghost all = lines(text@);
    let mut in_entry = false;
    let mut k: usize = 0;
    assert(all.skip(0) =~= all);
    while k < ls.len()
        invariant
            k <= ls@.len() == all.len(),
            all == lines(text@),
            forall|j: int| 0 <= j < ls@.len() ==> #[trigger] ls@[j]@ == all[j],
            bracket@ == "["@,
            entry@ == "[Desktop Entry]"@,
            key@ == "Name="@,
            menu_name(text@) == entry_name_from(all.skip(k as int), in_entry),
        decreases ls.len() - k,
    {
        let line = &ls[k];
        assert(all.skip(k as int)[0] == line@);
        assert(all.skip(k as int).drop_first() =~= all.skip(k + 1));
        proof {
            reveal_strlit("Name=");
        }
        if has_prefix(line, &bracket) {
            in_entry = same_chars(line, &entry);
        } else if in_entry && has_prefix(line, &key) {
            let mut out = String::new();
            push_chars(&mut out, line.as_slice(), 5, line.len());
            assert(out@ =~= line@.skip(5));
            return Some(out);
        }
        k = k + 1;
    }
    None
}

/// Every line of a launcher this tool writes can stand in a text as written.
proof fn lemma_launcher_lines_plain(bin: Seq<char>, name: Seq<char>, dir: Seq<char>)
    requires
        valid_name(name),
        quotable(dir),
        !bin.contains('\n'),
    ensures
        forall|i: int|
            0 <= i < launcher_lines(bin, name, dir).len() ==> plain_line(
                #[trigger] launcher_lines(bin, name, dir)[i],
            ),
{
    reveal_strlit("[Desktop Entry]");
    reveal_strlit("Type=Application");
    reveal_strlit("Name=Signal (");
    reveal_strlit(")");
    reveal_strlit("Comment=Private messaging from your desktop (profile: ");
    reveal_strlit("Exec=env BAMF_DESKTOP_FILE_HINT=");
    reveal_strlit("/var/lib/snapd/desktop/applications/signal-desktop_signal-desktop.desktop");
    reveal_strlit(" ");
    reveal_strlit(" \"");
    reveal_strlit("--user-data-dir=");
    reveal_strlit("\" %U");
    reveal_strlit("Icon=");
    reveal_strlit("/snap/signal-desktop/current/meta/gui/signal-desktop.png");
    reveal_strlit("Terminal=false");
    reveal_strlit("StartupWMClass=Signal");
    reveal_strlit("Categories=Network;InstantMessaging;Chat;");
    reveal_strlit("X-SnapInstanceName=signal-desktop");
    reveal_strlit("X-SnapAppName=signal-desktop");
    reveal_strlit("X-MultiSignal-Profile=");
    let ls = launcher_lines(bin, name, dir);
    assert forall|c: char| name.contains(c) implies crate::names::is_name_char(c) by {
        let k = choose|k: int| 0 <= k < name.len() && name[k] == c;
    }
    assert forall|c: char| dir.contains(c) implies !needs_escaping(c) by {
        let k = choose|k: int| 0 <= k < dir.len() && dir[k] == c;
    }
    assert forall|i: int| 0 <= i < ls.len() implies plain_line(#[trigger] ls[i]) by {
        assert forall|a: Seq<char>, b: Seq<char>|
            !a.contains('\n') && !b.contains('\n') implies !(#[trigger] (a + b)).contains('\n') by {
            if (a + b).contains('\n') {
                let k = choose|k: int| 0 <= k < (a + b).len() && (a + b)[k] == '\n';
                if k < a.len() {
                    assert(a[k] == '\n');
                } else {
                    assert(b[k - a.len()] == '\n');
                }
            }
        }
        assert(!name.contains('\n'));
        assert(!dir.contains('\n'));
    }
}

/// The launcher this tool writes for a profile shows "Signal (<name>)" in
/// the app menu.
pub proof fn written_launcher_shows_profile_name(bin: Seq<char>, name: Seq<char>, dir: Seq<char>)
    requires
        valid_name(name),
    ensures
        menu_name(launcher_text(bin, name, dir)) == Some("Signal ("@ + name + ")"@),
{
    let ls = launcher_lines(bin, name, dir);
    reveal_strlit("[Desktop Entry]");
    reveal_strlit("Type=Application");
    reveal_strlit("Name=Signal (");
    reveal_strlit(")");
    reveal_strlit("Name=");
    reveal_strlit("[");
    reveal_strlit("Signal (");
    // The first three lines do not depend on the program's path.
    let head = ls.take(3);
    assert(ls =~= head + ls.skip(3));
    crate::text::lemma_unlines_concat(head, ls.skip(3));
    assert(!name.contains('\n')) by {
        if name.contains('\n') {
            let k = choose|k: int| 0 <= k < name.len() && name[k] == '\n';
            assert(crate::names::is_name_char(name[k]));
        }
    }
    assert forall|i: int| 0 <= i < head.len() implies plain_line(#[trigger] head[i]) by {
        if i == 2 {
            let l = head[2];
            assert(l == "Name=Signal ("@ + name + ")"@);
            assert(!l.contains('\n')) by {
                if l.contains('\n') {
                    let k = choose|k: int| 0 <= k < l.len() && l[k] == '\n';
                    if 13 <= k < 13 + name.len() {
                        assert(name[k - 13] == '\n');
                    }
                }
            }
            assert(l.last() == ')');
        }
    }
    crate::text::lemma_lines_before(head, unlines(ls.skip(3)));
    let all = lines(launcher_text(bin, name, dir));
    assert(all[0] == ls[0] && all[1] == ls[1] && all[2] == ls[2]);
    assert(ls[0].subrange(0, 1) =~= "["@);
    assert(ls[1].subrange(0, 1)[0] != "["@[0]);
    assert(ls[1].subrange(0, 5)[0] != "Name="@[0]);
    assert(ls[2].subrange(0, 1)[0] != "["@[0]);
    assert(ls[2].subrange(0, 5) =~= "Name="@);
    assert(ls[2].skip(5) =~= "Signal ("@ + name + ")"@);
    let l1 = all.drop_first();
    let l2 = l1.drop_first();
    assert(starts_with(all[0], "["@));
    assert(all[0] == "[Desktop Entry]"@);
    assert(entry_name_from(all, false) == entry_name_from(l1, true));
    assert(l1[0] == ls[1]);
    assert(!starts_with(l1[0], "["@));
    assert(!starts_with(l1[0], "Name="@));
    assert(entry_name_from(l1, true) == entry_name_from(l2, true));
    assert(l2[0] == ls[2]);
    assert(starts_with(l2[0], "Name="@));
    assert(entry_name_from(l2, true) == Some(ls[2].skip(5)));
}

/// Scanning an `Exec` line whose data-directory argument starts at `p` and
/// is followed by a quote finds it, whatever comes before it: a match before
/// `p` ends before the quote in front of it.
proof fn lemma_scan_reaches(line: Seq<char>, needle: Seq<char>, p: int, i: int)
    requires
        needle.len() > 0,
        0 < p,
        p + needle.len() < line.len(),
        line.subrange(p, p + needle.len()) == needle,
        line[p - 1] == '"',
        line[p + needle.len()] == '"',
        !needle.contains('"'),
        0 <= i <= p,
    ensures
        ended_match_from(line, needle, i),
    decreases p - i,
{
    let m = needle.len();
    if i == p {
    } else if line.subrange(i, i + m) == needle {
        if i + m > p - 1 {
            assert(line.subrange(i, i + m)[p - 1 - i] == line[p - 1]);
            assert(needle[p - 1 - i] == '"');
        }
        if !ends_path(line, i + m) {
            lemma_scan_reaches(line, needle, p, i + m);
        }
    } else {
        lemma_scan_reaches(line, needle, p, i + 1);
    }
}

/// The launcher this tool writes for a profile is found again as one of
/// that profile's launchers: its file is a `.desktop` file, and its `Exec=`
/// line starts Signal with the profile's data directory.
pub proof fn written_launcher_is_found(paths: Paths, name: Seq<char>)
    requires
        valid_name(name),
        quotable(path_join(paths.signal_base@, name)),
        !paths.signal_bin@.contains('\n'),
    ensures
        is_desktop_file_name(
            file_name_of(path_join(paths.applications@, Paths::launcher_file_name(name))),
        ),
        mentions(
            launcher_text(paths.signal_bin@, name, path_join(paths.signal_base@, name)),
            data_dir_needle(paths, name),
        ),
{
    let bin = paths.signal_bin@;
    let dir = path_join(paths.signal_base@, name);
    let ls = launcher_lines(bin, name, dir);
    let text = launcher_text(bin, name, dir);
    let file = Paths::launcher_file_name(name);
    reveal_strlit("Signal-");
    reveal_strlit(".desktop");
    crate::names::valid_names_are_safe(name);
    assert(!file.contains('/')) by {
        if file.contains('/') {
            let k = choose|k: int| 0 <= k < file.len() && file[k] == '/';
            if 7 <= k < 7 + name.len() {
                assert(name[k - 7] == '/');
            }
        }
    }
    crate::paths::lemma_file_name_after_slash(Seq::empty(), file);
    assert(Seq::<char>::empty() + file =~= file);
    let apps = paths.applications@;
    if file[0] != '/' {
        if apps.len() == 0 || apps.last() == '/' {
            crate::paths::lemma_file_name_after_slash(apps, file);
        } else {
            crate::paths::lemma_file_name_after_slash(apps + seq!['/'], file);
        }
    }
    lemma_desktop_suffix(file);
    assert(file.skip(file.len() - 8) =~= ".desktop"@);
    lemma_launcher_lines_plain(bin, name, dir);
    lemma_lines_unlines(ls);
    reveal_strlit("Exec=");
    reveal_strlit("Exec=env BAMF_DESKTOP_FILE_HINT=");
    reveal_strlit(" \"");
    reveal_strlit("\" %U");
    reveal_strlit("--user-data-dir=");
    let line = ls[4];
    let needle = data_dir_needle(paths, name);
    let front = "Exec=env BAMF_DESKTOP_FILE_HINT="@ + SNAP_DESKTOP_HINT@ + " "@ + bin + " \""@;
    let p: int = front.len() as int;
    assert(line =~= front + needle + "\" %U"@);
    assert(line.subrange(p, p + needle.len()) =~= needle);
    assert(line[p - 1] == '"');
    assert(line[p + needle.len()] == '"');
    assert(!needle.contains('"')) by {
        if needle.contains('"') {
            let k = choose|k: int| 0 <= k < needle.len() && needle[k] == '"';
            if k >= 16 {
                assert(dir[k - 16] == '"');
                assert(needs_escaping(dir[k - 16]));
            }
        }
    }
    lemma_scan_reaches(line, needle, p, 0);
    assert(lines(text)[4] == line);
    assert(line.subrange(0, 5) =~= "Exec="@);
}

/// Scanning from `i` up to the first place `p` where `needle` occurs, and
/// where the path ends right after it, finds a match that ends the path.
proof fn lemma_first_match_found(line: Seq<char>, needle: Seq<char>, p: int, i: int)
    requires
        needle.len() >= 1,
        0 <= i <= p,
        p + needle.len() <= line.len(),
        line.subrange(p, p + needle.len()) == needle,
        forall|j: int| 0 <= j < p ==> #[trigger] line.subrange(j, j + needle.len()) != needle,
        p + needle.len() == line.len() || line[p + needle.len()] == '"' || line[p
            + needle.len()] == '\'' || line[p + needle.len()] == ' ',
    ensures
        ended_match_from(line, needle, i),
    decreases p - i,
{
    if i < p {
        assert(line.subrange(i, i + needle.len()) != needle);
        lemma_first_match_found(line, needle, p, i + 1);
    }
}

/// A launcher whose `Exec=` line holds the data-directory argument, first
/// met where it is followed by the end of the line, a double or single
/// quote, or a space, starts Signal with that data directory: so
/// `Exec=sh -c 'signal-desktop --user-data-dir=/h/Signal/A'` is one of A's
/// launchers.
pub proof fn an_argument_ended_by_a_quote_or_space_is_found(
    text: Seq<char>,
    needle: Seq<char>,
    k: int,
    p: int,
)
    requires
        0 <= k < lines(text).len(),
        starts_with(lines(text)[k], "Exec="@),
        needle.len() >= 1,
        0 <= p,
        p + needle.len() <= lines(text)[k].len(),
        lines(text)[k].subrange(p, p + needle.len()) == needle,
        forall|j: int|
            0 <= j < p ==> #[trigger] lines(text)[k].subrange(j, j + needle.len()) != needle,
        p + needle.len() == lines(text)[k].len() || lines(text)[k][p + needle.len()] == '"'
            || lines(text)[k][p + needle.len()] == '\'' || lines(text)[k][p + needle.len()]
            == ' ',
    ensures
        mentions(text, needle),
{
    lemma_first_match_found(lines(text)[k], needle, p, 0);
}

} // verus!
