//! Every location the app touches, so tests can point it at a temp dir.
//! Paths are UTF-8 text joined the way `PathBuf::push` joins on Unix.

use crate::names::valid_name;
use crate::text::push_str;
use vstd::prelude::*;

verus! {

pub const SNAP_DESKTOP_HINT: &'static str =
    "/var/lib/snapd/desktop/applications/signal-desktop_signal-desktop.desktop";

pub const SIGNAL_ICON: &'static str = "/snap/signal-desktop/current/meta/gui/signal-desktop.png";

/// `base` joined with `part`: an absolute `part` replaces `base`; otherwise a
/// `/` goes between them unless `base` is empty or already ends with one.
pub open spec fn path_join(base: Seq<char>, part: Seq<char>) -> Seq<char> {
    if part.len() > 0 && part[0] == '/' {
        part
    } else if base.len() == 0 || base.last() == '/' {
        base + part
    } else {
        base + seq!['/'] + part
    }
}

/// `Path::join` for UTF-8 paths.
pub fn join(base: &str, part: &str) -> (r: String)
    ensures
        r@ == path_join(base@, part@),
{
    let part_chars = crate::text::chars_of(part);
    let base_chars = crate::text::chars_of(base);
    if part_chars.len() > 0 && part_chars[0] == '/' {
        return part.to_owned();
    }
    let mut out = base.to_owned();
    if !(base_chars.len() == 0 || base_chars[base_chars.len() - 1] == '/') {
        push_str(&mut out, "/");
        proof {
            reveal_strlit("/");
            assert("/"@ =~= seq!['/']);
        }
    }
    push_str(&mut out, part);
    out
}

/// The last component of a path: everything after its last `/`.
pub open spec fn file_name_of(path: Seq<char>) -> Seq<char>
    decreases path.len(),
{
    if path.len() == 0 || path.last() == '/' {
        Seq::empty()
    } else {
        file_name_of(path.drop_last()).push(path.last())
    }
}

/// The file name of a path (the text after its last `/`).
pub fn file_name(path: &str) -> (r: String)
    ensures
        r@ == file_name_of(path@),
{
    let v = crate::text::chars_of(path);
    let n = v.len();
    let mut start: usize = n;
    assert(v@.take(n as int) =~= v@);
    assert(v@.subrange(n as int, n as int) =~= Seq::<char>::empty());
    assert(file_name_of(v@) == file_name_of(v@.take(n as int)) + v@.subrange(n as int, n as int));
    while start > 0 && v[start - 1] != '/'
        invariant
            start <= n == v@.len(),
            file_name_of(v@) == file_name_of(v@.take(start as int)) + v@.subrange(
                start as int,
                n as int,
            ),
        decreases start,
    {
        assert(v@.take(start as int).drop_last() =~= v@.take(start - 1));
        assert(v@.subrange(start - 1, n as int) =~= seq![v@[start - 1]] + v@.subrange(
            start as int,
            n as int,
        ));
        assert(file_name_of(v@.take(start - 1)).push(v@[start - 1]) + v@.subrange(
            start as int,
            n as int,
        ) =~= file_name_of(v@.take(start - 1)) + v@.subrange(start - 1, n as int));
        start = start - 1;
    }
    assert(file_name_of(v@.take(start as int)) =~= Seq::<char>::empty());
    assert(file_name_of(v@) =~= v@.subrange(start as int, n as int));
    let mut out = String::new();
    crate::text::push_chars(&mut out, v.as_slice(), start, n);
    out
}

#[derive(Clone, Debug)]
pub struct Paths {
    /// `~/Signal`: one sub-directory per profile.
    pub signal_base: String,
    /// The Signal snap's own data, used when Signal runs without a profile
    /// (`~/snap/signal-desktop/current/.config/Signal`).
    pub default_data_dir: String,
    /// `$XDG_DATA_HOME/applications` (default `~/.local/share/applications`).
    pub applications: String,
    /// Signal binary. `MULTISIGNAL_SIGNAL_BIN` overrides it for smoke tests.
    pub signal_bin: String,
    /// `/proc`, replaced by a fake tree in tests.
    pub proc_root: String,
    /// Window size and appearance (`$XDG_CONFIG_HOME/multisignal/settings.ini`).
    pub settings: String,
}

impl Paths {
    /// The locations for a home directory, with `$XDG_DATA_HOME` if it is set.
    pub fn for_home(home: &str, xdg_data_home: Option<&str>) -> (p: Self)
        ensures
            p.signal_base@ == path_join(home@, "Signal"@),
            p.default_data_dir@ == path_join(home@, "snap/signal-desktop/current/.config/Signal"@),
            p.applications@ == path_join(
                match xdg_data_home {
                    Some(d) => d@,
                    None => path_join(home@, ".local/share"@),
                },
                "applications"@,
            ),
            p.signal_bin@ == "/snap/bin/signal-desktop"@,
            p.proc_root@ == "/proc"@,
            p.settings@ == path_join(home@, ".config/multisignal/settings.ini"@),
    {
        let data = match xdg_data_home {
            Some(d) => d.to_owned(),
            None => join(home, ".local/share"),
        };
        Paths {
            signal_base: join(home, "Signal"),
            default_data_dir: join(home, "snap/signal-desktop/current/.config/Signal"),
            applications: join(data.as_str(), "applications"),
            signal_bin: "/snap/bin/signal-desktop".to_owned(),
            proc_root: "/proc".to_owned(),
            settings: join(home, ".config/multisignal/settings.ini"),
        }
    }

    /// `~/Signal/<name>`.
    pub fn profile_dir(&self, name: &str) -> (r: String)
        ensures
            r@ == path_join(self.signal_base@, name@),
    {
        join(self.signal_base.as_str(), name)
    }

    /// The file name of this tool's launcher for a profile.
    pub open spec fn launcher_file_name(name: Seq<char>) -> Seq<char> {
        "Signal-"@ + name + ".desktop"@
    }

    /// `<applications>/Signal-<name>.desktop`.
    pub fn own_launcher(&self, name: &str) -> (r: String)
        ensures
            r@ == path_join(self.applications@, Self::launcher_file_name(name@)),
    {
        let mut file = "Signal-".to_owned();
        push_str(&mut file, name);
        push_str(&mut file, ".desktop");
        join(self.applications.as_str(), file.as_str())
    }
}

/// After a `/` (or at the start), a name without `/` is the file name.
pub proof fn lemma_file_name_after_slash(dir: Seq<char>, name: Seq<char>)
    requires
        dir.len() == 0 || dir.last() == '/',
        !name.contains('/'),
    ensures
        file_name_of(dir + name) == name,
    decreases name.len(),
{
    if name.len() == 0 {
        assert(dir + name =~= dir);
    } else {
        let init = name.drop_last();
        assert(!init.contains('/')) by {
            if init.contains('/') {
                let k = choose|k: int| 0 <= k < init.len() && init[k] == '/';
                assert(name[k] == '/');
            }
        }
        lemma_file_name_after_slash(dir, init);
        assert((dir + name).drop_last() =~= dir + init);
        assert(name.last() != '/') by {
            assert(name[name.len() - 1] == name.last());
        }
        assert(init.push(name.last()) =~= name);
    }
}

/// A profile's folder sits directly in `~/Signal`: its file name is the
/// profile's name.
pub proof fn profile_dir_is_named_after_profile(base: Seq<char>, name: Seq<char>)
    requires
        valid_name(name),
    ensures
        file_name_of(path_join(base, name)) == name,
        path_join(base, name) == base + name || path_join(base, name) == base + seq!['/'] + name,
{
    crate::names::valid_names_are_safe(name);
    if base.len() == 0 || base.last() == '/' {
        lemma_file_name_after_slash(base, name);
    } else {
        let b = base + seq!['/'];
        assert(b.last() == '/');
        lemma_file_name_after_slash(b, name);
    }
}

} // verus!
