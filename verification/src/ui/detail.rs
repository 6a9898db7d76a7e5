//! The texts of the detail pane.

use crate::paths::{file_name, file_name_of, Paths, SNAP_DESKTOP_HINT};
use crate::profiles::Profile;
use crate::components::{
    components, components_of, idle, idle_piece, lead, pieces, views,
};
use crate::text::{chars_of, lemma_split_nonempty, push_str, same_chars, split_chars, str_eq};
use vstd::prelude::*;

verus! {

/// "signal-desktop-damon.desktop · made by hand", the snap's entry for the
/// default Signal, or "—" without a launcher.
pub open spec fn launcher_file_of(p: Profile) -> Seq<char> {
    if p.is_default {
        file_name_of(SNAP_DESKTOP_HINT@) + " \u{b7} from the snap"@
    } else if p.launchers@.len() == 0 {
        "\u{2014}"@
    } else if file_name_of(p.launchers@[0]@) == Paths::launcher_file_name(p.name@) {
        file_name_of(p.launchers@[0]@)
    } else {
        file_name_of(p.launchers@[0]@) + " \u{b7} made by hand"@
    }
}

/// The launcher file shown for a profile.
pub fn launcher_file(p: &Profile) -> (r: String)
    ensures
        r@ == launcher_file_of(*p),
{
    if p.is_default {
        let mut m = file_name(SNAP_DESKTOP_HINT);
        push_str(&mut m, " \u{b7} from the snap");
        return m;
    }
    if p.launchers.len() == 0 {
        return "\u{2014}".to_owned();
    }
    let file = file_name(p.launchers[0].as_str());
    let mut own = "Signal-".to_owned();
    push_str(&mut own, p.name.as_str());
    push_str(&mut own, ".desktop");
    if str_eq(file.as_str(), own.as_str()) {
        file
    } else {
        let mut m = file;
        push_str(&mut m, " \u{b7} made by hand");
        m
    }
}

/// The status under the profile's name.
pub fn status_text(p: &Profile) -> (r: &'static str)
    ensures
        r@ == if p.running {
            "Running"@
        } else if p.locked {
            "Locked"@
        } else {
            "Not running"@
        },
{
    if p.running {
        "Running"
    } else if p.locked {
        "Locked"
    } else {
        "Not running"
    }
}

/// The main button: bring a running Signal forward, or open it.
pub fn primary_label(p: &Profile) -> (r: &'static str)
    ensures
        r@ == if p.running {
            "Show Signal"@
        } else {
            "Open Signal"@
        },
{
    if p.running {
        "Show Signal"
    } else {
        "Open Signal"
    }
}

/// The "Menu entry" value: the entry's name, or why there is none. `first_name`
/// is the menu name read from the profile's first launcher (`None` when it
/// has none, `Some(None)` when that launcher shows no name). The flag says
/// whether to offer Repair.
pub open spec fn menu_entry_of(p: Profile, first_name: Option<Option<Seq<char>>>) -> (Seq<char>, bool) {
    let menu = if p.is_default {
        Some("Signal"@)
    } else {
        match first_name {
            None => None,
            Some(Some(n)) => Some(n),
            Some(None) => Some("Signal ("@ + p.name@ + ")"@),
        }
    };
    match menu {
        Some(_) if p.locked => ("Hidden (locked)"@, false),
        Some(n) => (n, false),
        None => ("Missing"@, true),
    }
}

pub fn menu_entry(p: &Profile, first_name: Option<Option<String>>) -> (r: (String, bool))
    ensures
        (r.0@, r.1) == menu_entry_of(
            *p,
            match first_name {
                None => None,
                Some(None) => Some(None),
                Some(Some(n)) => Some(Some(n@)),
            },
        ),
{
    let menu: Option<String> = if p.is_default {
        Some("Signal".to_owned())
    } else {
        match first_name {
            None => None,
            Some(Some(n)) => Some(n),
            Some(None) => {
                let mut m = "Signal (".to_owned();
                push_str(&mut m, p.name.as_str());
                push_str(&mut m, ")");
                Some(m)
            },
        }
    };
    match menu {
        Some(_) if p.locked => ("Hidden (locked)".to_owned(), false),
        Some(n) => (n, false),
        None => ("Missing".to_owned(), true),
    }
}

/// The note under the default Signal's actions.
pub open spec fn default_note_of(p: Profile) -> Seq<char> {
    (if p.running {
        "Quit the default Signal to move it. "@
    } else {
        "This is the Signal snap\u{2019}s own profile, opened from the Signal entry in your app menu. "@
    }) + (if p.locked {
        "It\u{2019}s locked: that entry is hidden and Signal Profiles won\u{2019}t open it, so it isn\u{2019}t used by accident."@
    } else {
        "Moving turns it into a normal profile and leaves the default empty; locking hides its entry so it isn\u{2019}t used by accident."@
    })
}

/// The note under the default Signal's actions: what moving and locking do.
pub fn default_note(p: &Profile) -> (r: String)
    ensures
        r@ == default_note_of(*p),
{
    let mut note = String::new();
    if p.running {
        push_str(&mut note, "Quit the default Signal to move it. ");
    } else {
        push_str(
            &mut note,
            "This is the Signal snap\u{2019}s own profile, opened from the Signal entry in your app menu. ",
        );
    }
    if p.locked {
        push_str(
            &mut note,
            "It\u{2019}s locked: that entry is hidden and Signal Profiles won\u{2019}t open it, so it isn\u{2019}t used by accident.",
        );
    } else {
        push_str(
            &mut note,
            "Moving turns it into a normal profile and leaves the default empty; locking hides its entry so it isn\u{2019}t used by accident.",
        );
    }
    proof {
        reveal_strlit("");
    }
    note
}

/// The default Signal's lock action: unlock when locked, else lock.
pub fn lock_action_label(p: &Profile) -> (r: &'static str)
    ensures
        r@ == if p.locked {
            "Unlock Default Signal"@
        } else {
            "Lock Default Signal"@
        },
{
    if p.locked {
        "Unlock Default Signal"
    } else {
        "Lock Default Signal"
    }
}

/// Under Move to Trash, for a running profile: quit it first.
pub fn trash_note(p: &Profile) -> (r: Option<String>)
    ensures
        p.running ==> (r matches Some(n) && n@ == "Quit Signal ("@ + p.name@
            + ") before moving it to the Trash. Closing its window can leave it running in the tray."@),
        !p.running ==> r is None,
{
    if p.running {
        let mut m = "Quit Signal (".to_owned();
        push_str(&mut m, p.name.as_str());
        push_str(
            &mut m,
            ") before moving it to the Trash. Closing its window can leave it running in the tray.",
        );
        Some(m)
    } else {
        None
    }
}

/// Walking the pieces from `i` on past the components `want`, in order
/// (idle pieces are passed over): the pieces left after the last of them,
/// or none where the path ends first or a name differs.
pub open spec fn after(ps: Seq<Seq<char>>, i: int, want: Seq<Seq<char>>) -> Option<
    Seq<Seq<char>>,
>
    decreases ps.len() - i,
{
    if i < 0 || i > ps.len() {
        None
    } else if want.len() == 0 {
        Some(ps.subrange(i, ps.len() as int))
    } else if i == ps.len() {
        None
    } else if idle(ps[i]) {
        after(ps, i + 1, want)
    } else if ps[i] == want[0] {
        after(ps, i + 1, want.skip(1))
    } else {
        None
    }
}

/// The pieces without the idle ones at their start.
pub open spec fn trim_front(ps: Seq<Seq<char>>) -> Seq<Seq<char>>
    decreases ps.len(),
{
    if ps.len() > 0 && idle(ps[0]) {
        trim_front(ps.drop_first())
    } else {
        ps
    }
}

/// The pieces without the idle ones at their end.
pub open spec fn trim_back(ps: Seq<Seq<char>>) -> Seq<Seq<char>>
    decreases ps.len(),
{
    if ps.len() > 0 && idle(ps.last()) {
        trim_back(ps.drop_last())
    } else {
        ps
    }
}

/// Pieces joined with a separator between each two.
pub open spec fn join(ps: Seq<Seq<char>>) -> Seq<char>
    decreases ps.len(),
{
    if ps.len() == 0 {
        Seq::empty()
    } else if ps.len() == 1 {
        ps[0]
    } else {
        join(ps.drop_last()) + seq!['/'] + ps.last()
    }
}

/// A path shown with `~` for the home folder, as `Path::strip_prefix` and
/// `Path::display` give it: where the home folder's components start the
/// path's, `~/` and the rest, without idle pieces at its ends; elsewhere the
/// path as it is. An empty home folder has no components: every path is
/// inside it, kept whole but for idle pieces at its end.
pub open spec fn tilde_of(path: Seq<char>, home: Seq<char>) -> Seq<char> {
    let ps = pieces(path);
    let want = components(home);
    if want.len() == 0 {
        if ps.len() > 1 && ps[0].len() == 0 {
            "~/"@ + seq!['/'] + join(trim_back(ps.skip(1)))
        } else {
            "~/"@ + join(seq![ps[0]] + trim_back(ps.skip(1)))
        }
    } else if lead(ps).len() == 1 && lead(ps)[0] == want[0] {
        match after(ps, 1, want.skip(1)) {
            Some(rest) => "~/"@ + join(trim_back(trim_front(rest))),
            None => path,
        }
    } else {
        path
    }
}

/// The first piece from `from` on, before `to`, that is not idle (or `to`).
fn skip_idle_front(ps: &Vec<Vec<char>>, from: usize, to: usize) -> (a: usize)
    requires
        from <= to <= ps@.len(),
    ensures
        from <= a <= to,
        trim_front(views(ps@).subrange(from as int, to as int)) == views(ps@).subrange(
            a as int,
            to as int,
        ),
{
    let ghost p = views(ps@);
    let mut a = from;
    while a < to && idle_piece(&ps[a])
        invariant
            from <= a <= to <= ps@.len(),
            p == views(ps@),
            trim_front(p.subrange(from as int, to as int)) == trim_front(
                p.subrange(a as int, to as int),
            ),
        decreases to - a,
    {
        assert(p.subrange(a as int, to as int).drop_first() =~= p.subrange(a + 1, to as int));
        a = a + 1;
    }
    a
}

/// The end of the pieces from `from` to `to` without their idle ones at the
/// end.
fn skip_idle_back(ps: &Vec<Vec<char>>, from: usize, to: usize) -> (b: usize)
    requires
        from <= to <= ps@.len(),
    ensures
        from <= b <= to,
        trim_back(views(ps@).subrange(from as int, to as int)) == views(ps@).subrange(
            from as int,
            b as int,
        ),
{
    let ghost p = views(ps@);
    let mut b = to;
    while b > from && idle_piece(&ps[b - 1])
        invariant
            from <= b <= to <= ps@.len(),
            p == views(ps@),
            trim_back(p.subrange(from as int, to as int)) == trim_back(
                p.subrange(from as int, b as int),
            ),
        decreases b - from,
    {
        assert(p.subrange(from as int, b as int).drop_last() =~= p.subrange(
            from as int,
            b - 1,
        ));
        b = b - 1;
    }
    b
}

/// Appends the pieces from `from` to `to`, joined.
fn push_joined(out: &mut String, ps: &Vec<Vec<char>>, from: usize, to: usize)
    requires
        from <= to <= ps@.len(),
    ensures
        final(out)@ == old(out)@ + join(views(ps@).subrange(from as int, to as int)),
{
    let ghost p = views(ps@);
    let ghost start = out@;
    let mut i = from;
    assert(join(p.subrange(from as int, from as int)) =~= Seq::<char>::empty());
    assert(out@ =~= start + join(p.subrange(from as int, from as int)));
    while i < to
        invariant
            from <= i <= to <= ps@.len(),
            p == views(ps@),
            out@ == start + join(p.subrange(from as int, i as int)),
        decreases to - i,
    {
        proof {
            reveal_strlit("/");
        }
        let ghost sub = p.subrange(from as int, i + 1);
        assert(sub.drop_last() =~= p.subrange(from as int, i as int));
        assert(sub.last() == ps@[i as int]@);
        if i > from {
            push_str(out, "/");
        }
        crate::text::push_chars(out, ps[i].as_slice(), 0, ps[i].len());
        assert(ps@[i as int]@.subrange(0, ps@[i as int]@.len() as int) =~= ps@[i as int]@);
        if i == from {
            assert(sub.len() == 1);
            assert(out@ =~= start + join(sub));
        } else {
            assert(out@ =~= start + join(sub));
        }
        i = i + 1;
    }
}

/// The data folder as shown: inside the home folder `home`, with `~`.
pub fn tilde(path: &str, home: &str) -> (r: String)
    ensures
        r@ == tilde_of(path@, home@),
{
    let pv = chars_of(path);
    let hv = chars_of(home);
    let ps = split_chars(&pv, '/');
    let hs = split_chars(&hv, '/');
    let ghost p = views(ps@);
    proof {
        reveal_strlit("~/");
        reveal_strlit("/");
        lemma_split_nonempty(path@, '/');
        lemma_split_nonempty(home@, '/');
        assert(p =~= pieces(path@));
        assert(views(hs@) =~= pieces(home@));
    }
    let want = components_of(&hs);
    let ghost w = views(want@);
    assert(w == components(home@));
    if want.len() == 0 {
        let mut out = "~/".to_owned();
        let b = skip_idle_back(&ps, 1, ps.len());
        assert(p.subrange(1, p.len() as int) =~= p.skip(1));
        if ps.len() > 1 && ps[0].len() == 0 {
            push_str(&mut out, "/");
            push_joined(&mut out, &ps, 1, b);
        } else {
            push_joined(&mut out, &ps, 0, b);
            assert(p.subrange(0, b as int) =~= seq![p[0]] + p.subrange(1, b as int));
        }
        return out;
    }
    let lead_ok = if ps[0].len() > 0 {
        same_chars(&ps[0], &want[0])
    } else if ps.len() > 1 {
        want[0].len() == 1 && want[0][0] == '/'
    } else {
        false
    };
    proof {
        if ps[0].len() == 0 && ps.len() > 1 {
            if want[0]@.len() == 1 && want[0]@[0] == '/' {
                assert(want[0]@ =~= seq!['/']);
            }
        }
    }
    if !lead_ok {
        return path.to_owned();
    }
    let mut i: usize = 1;
    let mut m: usize = 1;
    while m < want.len()
        invariant
            1 <= i <= ps@.len(),
            1 <= m <= want@.len(),
            p == views(ps@),
            w == views(want@),
            w == components(home@),
            p == pieces(path@),
            w.len() > 0,
            lead(p).len() == 1 && lead(p)[0] == w[0],
            after(p, 1, w.skip(1)) == after(p, i as int, w.skip(m as int)),
        decreases ps.len() - i,
    {
        if i >= ps.len() {
            return path.to_owned();
        }
        if idle_piece(&ps[i]) {
            i = i + 1;
        } else if same_chars(&ps[i], &want[m]) {
            assert(w.skip(m as int).skip(1) =~= w.skip(m + 1));
            i = i + 1;
            m = m + 1;
        } else {
            return path.to_owned();
        }
    }
    assert(w.skip(m as int).len() == 0);
    let a = skip_idle_front(&ps, i, ps.len());
    let b = skip_idle_back(&ps, a, ps.len());
    let mut out = "~/".to_owned();
    push_joined(&mut out, &ps, a, b);
    out
}

} // verus!
