//! The main window's decisions: which profile stays selected after a reload,
//! which actions are offered, and what a repair reports.

use crate::procs::{runs_in, Running};
use crate::profiles::Profile;
use crate::store::RepairReport;
use crate::text::{push_str, str_eq, texts};
use crate::units::{decimal, push_decimal};
use vstd::prelude::*;

verus! {

/// `i` is the first position of `x` in `s`.
pub open spec fn first_at(s: Seq<Seq<char>>, x: Seq<char>, i: int) -> bool {
    &&& 0 <= i < s.len()
    &&& s[i] == x
    &&& forall|j: int| 0 <= j < i ==> s[j] != x
}

/// The selection after the list changed from `old` to `new`: the selected
/// profile if it is still there; else the one now at its old position (or
/// the last one); else the first one; nothing for an empty list.
pub open spec fn selection_after(
    old: Seq<Seq<char>>,
    current: Option<Seq<char>>,
    new: Seq<Seq<char>>,
) -> Option<Seq<char>> {
    if new.len() == 0 {
        None
    } else {
        match current {
            Some(c) => if new.contains(c) {
                Some(c)
            } else if old.contains(c) {
                let i = choose|i: int| first_at(old, c, i);
                Some(new[if i < new.len() { i } else { new.len() - 1 }])
            } else {
                Some(new[0])
            },
            None => Some(new[0]),
        }
    }
}

/// A name that may be missing, as text.
pub open spec fn opt_text(o: Option<String>) -> Option<Seq<char>> {
    match o {
        Some(s) => Some(s@),
        None => None,
    }
}

/// A borrowed name that may be missing, as text.
pub open spec fn opt_str(o: Option<&str>) -> Option<Seq<char>> {
    match o {
        Some(s) => Some(s@),
        None => None,
    }
}

/// First position of `x` among `names`, if any.
fn position(names: &[String], x: &str) -> (r: Option<usize>)
    ensures
        r matches Some(i) ==> first_at(texts(names@), x@, i as int),
        r is None ==> !texts(names@).contains(x@),
{
    let mut i: usize = 0;
    while i < names.len()
        invariant
            i <= names@.len(),
            forall|j: int| 0 <= j < i ==> names@[j]@ != x@,
        decreases names.len() - i,
    {
        if str_eq(names[i].as_str(), x) {
            return Some(i);
        }
        i = i + 1;
    }
    proof {
        if texts(names@).contains(x@) {
            let k = choose|k: int| 0 <= k < texts(names@).len() && texts(names@)[k] == x@;
            assert(names@[k]@ == x@);
        }
    }
    None
}

/// Which profile to select once the list is read again (see
/// `selection_after`).
pub fn next_selection(old: &[String], current: Option<&str>, new: &[String]) -> (r: Option<
    String,
>)
    ensures
        opt_text(r) == selection_after(texts(old@), opt_str(current), texts(new@)),
        r is Some <==> new@.len() > 0,
        r matches Some(s) ==> texts(new@).contains(s@),
        current is Some && texts(new@).contains(current->0@) ==> (r matches Some(s) && s@
            == current->0@),
{
    if new.len() == 0 {
        return None;
    }
    let ghost olds = texts(old@);
    let ghost news = texts(new@);
    match current {
        Some(c) => {
            if position(new, c).is_some() {
                return Some(c.to_owned());
            }
            match position(old, c) {
                Some(i) => {
                    let last = new.len() - 1;
                    let k = if i < last {
                        i
                    } else {
                        last
                    };
                    proof {
                        let j = choose|j: int| first_at(olds, c@, j);
                        assert(first_at(olds, c@, j));
                        if j < i {
                            assert(olds[j] == c@);
                        }
                        if i < j {
                            assert(olds[i as int] == c@);
                        }
                        assert(j == i);
                        assert(news[k as int] == new@[k as int]@);
                    }
                    Some(new[k].clone())
                },
                None => {
                    proof {
                        assert(news[0] == new@[0]@);
                    }
                    Some(new[0].clone())
                },
            }
        },
        None => {
            proof {
                assert(news[0] == new@[0]@);
            }
            Some(new[0].clone())
        },
    }
}

/// Which of the window's profile actions are enabled.
#[derive(Clone, Copy, Debug, PartialEq, Eq, Structural)]
pub struct ActionStates {
    pub open: bool,
    pub show: bool,
    pub repair: bool,
    pub trash: bool,
}

impl ActionStates {
    /// Profile actions need a selection (and not the install page); Repair
    /// and Move to Trash are never offered for the default Signal, and Move
    /// to Trash only for a stopped profile.
    pub fn for_selection(selected: Option<&Profile>, installing: bool) -> (r: ActionStates)
        ensures
            r.open == (selected is Some && !installing),
            r.show == r.open,
            r.repair == (r.open && !selected->0.is_default),
            r.trash == (r.repair && !selected->0.running),
    {
        match selected {
            Some(p) => {
                let on = !installing;
                let own = on && !p.is_default;
                ActionStates { open: on, show: on, repair: own, trash: own && !p.running }
            },
            None => ActionStates { open: false, show: false, repair: false, trash: false },
        }
    }
}

/// The labels of a profile's context menu.
pub open spec fn context_labels_of(selected: Option<Profile>) -> Seq<Seq<char>> {
    let open = if selected matches Some(p) && p.running {
        "Show Signal"@
    } else {
        "Open Signal"@
    };
    let head = seq![open, "Show in Files"@];
    if selected matches Some(p) && p.is_default {
        head
    } else {
        head.push("Move to Trash\u{2026}"@)
    }
}

/// The labels of the context menu for the selected profile.
pub fn context_labels(selected: Option<&Profile>) -> (r: Vec<&'static str>)
    ensures
        r@.map_values(|s: &'static str| s@) == context_labels_of(
            match selected {
                Some(p) => Some(*p),
                None => None,
            },
        ),
{
    let running = match selected {
        Some(p) => p.running,
        None => false,
    };
    let is_default = match selected {
        Some(p) => p.is_default,
        None => false,
    };
    let mut r: Vec<&'static str> = Vec::new();
    if running {
        r.push("Show Signal");
    } else {
        r.push("Open Signal");
    }
    r.push("Show in Files");
    if !is_default {
        r.push("Move to Trash\u{2026}");
    }
    proof {
        let want = context_labels_of(
            match selected {
                Some(p) => Some(*p),
                None => None,
            },
        );
        assert(r@.map_values(|s: &'static str| s@) =~= want);
    }
    r
}

/// Some profile's running state no longer matches the processes found.
pub open spec fn running_changed_of(profiles: Seq<Profile>, running: Running) -> bool {
    exists|i: int|
        0 <= i < profiles.len() && #[trigger] profiles[i].running != runs_in(
            running.data_dirs@,
            profiles[i].dir@,
        )
}

/// Whether a poll of the running processes calls for a reload.
pub fn running_changed(profiles: &[Profile], running: &Running) -> (r: bool)
    ensures
        r == running_changed_of(profiles@, *running),
        forall|i: int|
            0 <= i < profiles@.len() && !profiles@[i].running && runs_in(
                running.data_dirs@,
                #[trigger] profiles@[i].dir@,
            ) ==> r,
        forall|i: int|
            0 <= i < profiles@.len() && profiles@[i].running && !runs_in(
                running.data_dirs@,
                #[trigger] profiles@[i].dir@,
            ) ==> r,
        r ==> exists|i: int|
            0 <= i < profiles@.len() && (profiles@[i].running <==> !runs_in(
                running.data_dirs@,
                #[trigger] profiles@[i].dir@,
            )),
{
    let mut i: usize = 0;
    while i < profiles.len()
        invariant
            i <= profiles@.len(),
            forall|j: int|
                0 <= j < i ==> #[trigger] profiles@[j].running == runs_in(
                    running.data_dirs@,
                    profiles@[j].dir@,
                ),
        decreases profiles.len() - i,
    {
        if profiles[i].running != running.contains(profiles[i].dir.as_str()) {
            return true;
        }
        i = i + 1;
    }
    false
}

/// A profile that started or stopped calls for a reload: one shown as not
/// running whose data directory is now among the running ones, or one shown
/// as running whose data directory no longer is; and a reload is called for
/// only then.
pub proof fn a_started_or_stopped_profile_calls_for_a_reload(
    profiles: Seq<Profile>,
    running: Running,
)
    ensures
        running_changed_of(profiles, running) <==> exists|i: int|
            0 <= i < profiles.len() && ((!profiles[i].running && runs_in(
                running.data_dirs@,
                #[trigger] profiles[i].dir@,
            )) || (profiles[i].running && !runs_in(running.data_dirs@, profiles[i].dir@))),
{
}

/// The toast after repairing the launchers: about the selected profile when
/// its own Repair button asked and its entry was created, else a count.
pub open spec fn repair_text(
    for_selected: bool,
    selected: Option<Seq<char>>,
    created: Seq<Seq<char>>,
) -> Seq<char> {
    if for_selected && (selected matches Some(name) && created.contains(name)) {
        "Created app menu entry for \u{201c}"@ + selected->0 + "\u{201d}"@
    } else if created.len() == 0 {
        "App menu entries are up to date"@
    } else if created.len() == 1 {
        "Created 1 app menu entry"@
    } else {
        "Created "@ + decimal(created.len()) + " app menu entries"@
    }
}

/// The toast text for a finished repair.
pub fn repair_message(for_selected: bool, selected: Option<&str>, report: &RepairReport) -> (r:
    String)
    ensures
        r@ == repair_text(
            for_selected,
            opt_str(selected),
            texts(report.created@),
        ),
{
    proof {
        reveal_strlit("Created app menu entry for \u{201c}");
        reveal_strlit("\u{201d}");
        reveal_strlit("App menu entries are up to date");
        reveal_strlit("Created 1 app menu entry");
        reveal_strlit("Created ");
        reveal_strlit(" app menu entries");
    }
    if for_selected {
        if let Some(name) = selected {
            if position(&report.created, name).is_some() {
                let mut m = "Created app menu entry for \u{201c}".to_owned();
                push_str(&mut m, name);
                push_str(&mut m, "\u{201d}");
                return m;
            }
        }
    }
    let n = report.created.len();
    if n == 0 {
        "App menu entries are up to date".to_owned()
    } else if n == 1 {
        "Created 1 app menu entry".to_owned()
    } else {
        let mut m = "Created ".to_owned();
        push_decimal(&mut m, n as u128);
        push_str(&mut m, " app menu entries");
        m
    }
}

/// The profiles as shown: the default Signal under the user's own name for
/// it (`[default] name=`), when one is set; everything else as it is.
pub fn with_default_title(profiles: &mut Vec<Profile>, title: Option<&str>)
    ensures
        final(profiles)@.len() == old(profiles)@.len(),
        forall|i: int|
            #![trigger final(profiles)@[i]]
            0 <= i < old(profiles)@.len() ==> {
                let (a, b) = (old(profiles)@[i], final(profiles)@[i]);
                &&& b.name == a.name
                &&& b.dir == a.dir
                &&& b.size_bytes == a.size_bytes
                &&& b.running == a.running
                &&& b.launchers == a.launchers
                &&& b.is_default == a.is_default
                &&& b.locked == a.locked
                &&& if a.is_default && title is Some {
                    b.title@ == title->0@
                } else {
                    b.title == a.title
                }
            },
{
    let t = match title {
        Some(t) => t,
        None => {
            return;
        },
    };
    let mut i: usize = 0;
    while i < profiles.len()
        invariant
            i <= profiles@.len() == old(profiles)@.len(),
            title == Some(t),
            forall|k: int|
                #![trigger profiles@[k]]
                0 <= k < profiles@.len() ==> {
                    let (a, b) = (old(profiles)@[k], profiles@[k]);
                    &&& b.name == a.name
                    &&& b.dir == a.dir
                    &&& b.size_bytes == a.size_bytes
                    &&& b.running == a.running
                    &&& b.launchers == a.launchers
                    &&& b.is_default == a.is_default
                    &&& b.locked == a.locked
                    &&& if a.is_default && k < i {
                        b.title@ == t@
                    } else {
                        b.title == a.title
                    }
                },
        decreases profiles.len() - i,
    {
        if profiles[i].is_default {
            let mut p = profiles.remove(i);
            p.title = t.to_owned();
            profiles.insert(i, p);
        }
        i = i + 1;
    }
}

} // verus!
