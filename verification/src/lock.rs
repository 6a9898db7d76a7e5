//! Locking the default Signal: a per-user override of the snap's menu entry
//! with `Hidden=true`, so the launcher no longer offers it and it no longer
//! claims Signal links. Only overrides carrying our marker are ever removed.
//!
//! The override file is read and written by the caller; the functions here
//! decide, from its current text (`None` when there is no such file), what
//! becomes of it.

use crate::paths::{join, path_join, Paths};
use crate::text::{chars_of, lines, lines_of, same_chars, trim, trim_chars};
use vstd::prelude::*;

verus! {

broadcast use vstd::seq_lib::group_seq_properties;

/// The snap's desktop-file ID; a file with this name in the user's
/// applications folder overrides the snap's own entry.
pub const SNAP_ENTRY_ID: &'static str = "signal-desktop_signal-desktop.desktop";

pub const MARKER: &'static str = "X-MultiSignal-Lock=true";

/// The override this tool writes.
pub const OVERRIDE: &'static str = "[Desktop Entry]\nType=Application\nName=Signal\nComment=Hidden by Signal Profiles (the default Signal is locked)\nExec=/snap/bin/signal-desktop %U\nHidden=true\nX-MultiSignal-Lock=true\n";

pub fn override_path(paths: &Paths) -> (r: String)
    ensures
        r@ == path_join(paths.applications@, SNAP_ENTRY_ID@),
{
    join(paths.applications.as_str(), SNAP_ENTRY_ID)
}

/// Some line of the text, trimmed, is exactly `wanted`.
pub open spec fn has_line(text: Seq<char>, wanted: Seq<char>) -> bool {
    exists|k: int| 0 <= k < lines(text).len() && trim(#[trigger] lines(text)[k]) == wanted
}

fn has_line_exec(text: &str, wanted: &str) -> (r: bool)
    ensures
        r == has_line(text@, wanted@),
{
    let ls = lines_of(&chars_of(text));
    let w = chars_of(wanted);
    let mut k: usize = 0;
    while k < ls.len()
        invariant
            k <= ls@.len() == lines(text@).len(),
            forall|j: int| 0 <= j < ls@.len() ==> #[trigger] ls@[j]@ == lines(text@)[j],
            w@ == wanted@,
            forall|j: int| 0 <= j < k ==> trim(#[trigger] lines(text@)[j]) != wanted@,
        decreases ls.len() - k,
    {
        if same_chars(&trim_chars(&ls[k]), &w) {
            assert(ls@[k as int]@ == lines(text@)[k as int]);
            return true;
        }
        k = k + 1;
    }
    false
}

/// The override hides the snap's entry.
pub open spec fn hides(text: Seq<char>) -> bool {
    has_line(text, "Hidden=true"@)
}

/// The override carries our marker.
pub open spec fn ours(text: Seq<char>) -> bool {
    has_line(text, MARKER@)
}

/// Whether the snap's Signal entry is hidden for this user, given the text of
/// the override file (`None` when there is none).
pub fn is_locked(current: Option<&str>) -> (r: bool)
    ensures
        r == (current matches Some(t) && hides(t@)),
{
    match current {
        Some(t) => has_line_exec(t, "Hidden=true"),
        None => false,
    }
}

/// Whether the override was made by this tool.
pub fn is_ours(text: &str) -> (r: bool)
    ensures
        r == ours(text@),
{
    has_line_exec(text, MARKER)
}

/// What becomes of the override file.
#[derive(Clone, Debug, PartialEq)]
pub enum OverrideChange {
    /// Leave it as it is.
    Keep,
    /// Write this text to it (atomically, mode 0644).
    Write(String),
    /// Remove it.
    Remove,
}

/// Why the override is left alone.
#[derive(Clone, Debug, PartialEq)]
pub enum LockError {
    /// Locking: someone else's override that does not hide the entry (its
    /// path is given).
    MadeByHand(String),
    /// Unlocking: someone else's override that hides the entry (its path is
    /// given).
    HiddenByHand(String),
}

impl LockError {
    pub open spec fn message_of(self) -> Seq<char> {
        match self {
            LockError::MadeByHand(p) => p@ + " was made by hand; Signal Profiles leaves it alone"@,
            LockError::HiddenByHand(p) => p@
                + " hides Signal but wasn't made by Signal Profiles; remove it by hand"@,
        }
    }

    pub fn message(&self) -> (r: String)
        ensures
            r@ == self.message_of(),
    {
        match self {
            LockError::MadeByHand(p) => {
                let mut m = p.clone();
                crate::text::push_str(&mut m, " was made by hand; Signal Profiles leaves it alone");
                m
            },
            LockError::HiddenByHand(p) => {
                let mut m = p.clone();
                crate::text::push_str(
                    &mut m,
                    " hides Signal but wasn't made by Signal Profiles; remove it by hand",
                );
                m
            },
        }
    }
}

/// What locking does with the override whose text is `current`.
pub open spec fn lock_outcome(paths: Paths, current: Option<Seq<char>>, r: Result<
    OverrideChange,
    LockError,
>) -> bool {
    match current {
        None => r matches Ok(OverrideChange::Write(t)) && t@ == OVERRIDE@,
        Some(t) => if ours(t) || hides(t) {
            r == Ok::<OverrideChange, LockError>(OverrideChange::Keep)
        } else {
            r matches Err(LockError::MadeByHand(p)) && p@ == path_join(
                paths.applications@,
                SNAP_ENTRY_ID@,
            )
        },
    }
}

/// What unlocking does with the override whose text is `current`.
pub open spec fn unlock_outcome(paths: Paths, current: Option<Seq<char>>, r: Result<
    OverrideChange,
    LockError,
>) -> bool {
    match current {
        Some(t) => if ours(t) {
            r == Ok::<OverrideChange, LockError>(OverrideChange::Remove)
        } else if hides(t) {
            r matches Err(LockError::HiddenByHand(p)) && p@ == path_join(
                paths.applications@,
                SNAP_ENTRY_ID@,
            )
        } else {
            r == Ok::<OverrideChange, LockError>(OverrideChange::Keep)
        },
        None => r == Ok::<OverrideChange, LockError>(OverrideChange::Keep),
    }
}

pub open spec fn text_of(current: Option<&str>) -> Option<Seq<char>> {
    match current {
        Some(t) => Some(t@),
        None => None,
    }
}

/// Hides the snap's Signal entry: writes our override when there is none.
/// Refuses to replace an override someone else made (unless it already
/// hides the entry).
pub fn lock(paths: &Paths, current: Option<&str>) -> (r: Result<OverrideChange, LockError>)
    ensures
        lock_outcome(*paths, text_of(current), r),
{
    match current {
        Some(t) => {
            if is_ours(t) || is_locked(Some(t)) {
                Ok(OverrideChange::Keep)
            } else {
                Err(LockError::MadeByHand(override_path(paths)))
            }
        },
        None => Ok(OverrideChange::Write(OVERRIDE.to_owned())),
    }
}

/// Removes our override. A hand-made one that hides the entry can't be
/// undone here; one that doesn't is simply left alone.
pub fn unlock(paths: &Paths, current: Option<&str>) -> (r: Result<OverrideChange, LockError>)
    ensures
        unlock_outcome(*paths, text_of(current), r),
{
    match current {
        Some(t) => {
            if is_ours(t) {
                Ok(OverrideChange::Remove)
            } else if is_locked(Some(t)) {
                Err(LockError::HiddenByHand(override_path(paths)))
            } else {
                Ok(OverrideChange::Keep)
            }
        },
        None => Ok(OverrideChange::Keep),
    }
}

/// Our override reads as locked and as ours.
pub proof fn override_is_locked_and_ours()
    ensures
        hides(OVERRIDE@),
        ours(OVERRIDE@),
{
    let head = "[Desktop Entry]\nType=Application\nName=Signal\nComment=Hidden by Signal Profiles (the default Signal is locked)\nExec=/snap/bin/signal-desktop %U\n";
    let hidden = "Hidden=true";
    reveal_strlit("[Desktop Entry]\nType=Application\nName=Signal\nComment=Hidden by Signal Profiles (the default Signal is locked)\nExec=/snap/bin/signal-desktop %U\n");
    reveal_strlit("Hidden=true");
    reveal_strlit("X-MultiSignal-Lock=true");
    reveal_strlit("[Desktop Entry]\nType=Application\nName=Signal\nComment=Hidden by Signal Profiles (the default Signal is locked)\nExec=/snap/bin/signal-desktop %U\nHidden=true\nX-MultiSignal-Lock=true\n");
    let ls = seq![hidden@, MARKER@];
    assert(crate::text::unlines(ls) =~= hidden@ + seq!['\n'] + MARKER@ + seq!['\n']) by {
        reveal_with_fuel(crate::text::unlines, 3);
        assert(ls.drop_last().drop_last() =~= Seq::<Seq<char>>::empty());
    }
    assert(OVERRIDE@ =~= head@ + crate::text::unlines(ls));
    assert(crate::text::plain_line(hidden@));
    assert(crate::text::plain_line(MARKER@));
    assert forall|i: int| 0 <= i < ls.len() implies crate::text::plain_line(#[trigger] ls[i]) by {}
    crate::text::lemma_lines_after(head@, ls);
    let all = lines(OVERRIDE@);
    let n = all.len();
    assert(all[n - 2] == hidden@);
    assert(all[n - 1] == MARKER@);
    assert(trim(hidden@) == hidden@);
    assert(trim(MARKER@) == MARKER@);
    assert(trim(all[n - 2]) == "Hidden=true"@);
    assert(trim(all[n - 1]) == MARKER@);
}

/// Locking writes an override that then reads as locked and as ours; locking
/// it again keeps it; unlocking removes it; unlocking without an override
/// changes nothing.
pub proof fn lock_and_unlock_round_trip(paths: Paths, r1: Result<OverrideChange, LockError>, r2: Result<OverrideChange, LockError>, r3: Result<OverrideChange, LockError>, r4: Result<OverrideChange, LockError>)
    requires
        lock_outcome(paths, None, r1),
        lock_outcome(paths, Some(OVERRIDE@), r2),
        unlock_outcome(paths, Some(OVERRIDE@), r3),
        unlock_outcome(paths, None, r4),
    ensures
        r1 matches Ok(OverrideChange::Write(t)) && hides(t@) && ours(t@),
        r2 == Ok::<OverrideChange, LockError>(OverrideChange::Keep),
        r3 == Ok::<OverrideChange, LockError>(OverrideChange::Remove),
        r4 == Ok::<OverrideChange, LockError>(OverrideChange::Keep),
{
    override_is_locked_and_ours();
}

/// An override someone else made is never replaced or removed.
pub proof fn hand_made_override_is_left_alone(paths: Paths, text: Seq<char>, r1: Result<OverrideChange, LockError>, r2: Result<OverrideChange, LockError>)
    requires
        !ours(text),
        lock_outcome(paths, Some(text), r1),
        unlock_outcome(paths, Some(text), r2),
    ensures
        !(r1 matches Ok(OverrideChange::Write(_))),
        r1 != Ok::<OverrideChange, LockError>(OverrideChange::Remove),
        !(r2 matches Ok(OverrideChange::Write(_))),
        r2 != Ok::<OverrideChange, LockError>(OverrideChange::Remove),
{
}

/// The override's text once a change is carried out.
pub open spec fn after_change(current: Option<Seq<char>>, change: OverrideChange) -> Option<Seq<char>> {
    match change {
        OverrideChange::Keep => current,
        OverrideChange::Write(t) => Some(t@),
        OverrideChange::Remove => None,
    }
}

/// The entry is hidden by the override, if there is one.
pub open spec fn hidden(current: Option<Seq<char>>) -> bool {
    current matches Some(t) && hides(t)
}

/// A lock that goes ahead leaves the snap's entry hidden, unless the
/// override is ours but was edited so that it no longer hides the entry.
pub proof fn locking_leaves_the_entry_hidden(
    paths: Paths,
    current: Option<Seq<char>>,
    r: Result<OverrideChange, LockError>,
)
    requires
        lock_outcome(paths, current, r),
        r is Ok,
        !(current matches Some(t) && ours(t) && !hides(t)),
    ensures
        hidden(after_change(current, r->Ok_0)),
{
    override_is_locked_and_ours();
}

/// An unlock that goes ahead leaves the snap's entry shown: our override is
/// removed, and any other override left in place does not hide it.
pub proof fn unlocking_leaves_the_entry_shown(
    paths: Paths,
    current: Option<Seq<char>>,
    r: Result<OverrideChange, LockError>,
)
    requires
        unlock_outcome(paths, current, r),
        r is Ok,
    ensures
        !hidden(after_change(current, r->Ok_0)),
{
}

} // verus!
