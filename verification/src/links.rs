//! Signal links (`sgnl://`, `signalcaptcha://`) and which profile gets them.
//! A captcha solved in the browser comes back as such a link and must reach
//! the Signal instance that asked for it.

use crate::profiles::Profile;
use crate::text::{ascii_lower, chars_of, eq_ignore_ascii_case, texts, to_ascii_lower};
use vstd::prelude::*;

verus! {

broadcast use vstd::seq_lib::group_seq_properties;

/// The link schemes Signal Desktop handles.
pub const SCHEMES: [&'static str; 2] = ["sgnl", "signalcaptcha"];

/// `s` starts with `p`, ignoring ASCII case.
pub open spec fn starts_with_ignoring_case(s: Seq<char>, p: Seq<char>) -> bool {
    p.len() <= s.len() && eq_ignore_ascii_case(s.take(p.len() as int), p)
}

/// The part before the first `://` is one of the schemes, ignoring case.
/// (No scheme holds a `:`, so that is the same as starting with
/// `sgnl://` or `signalcaptcha://`.)
pub open spec fn signal_link(uri: Seq<char>) -> bool {
    starts_with_ignoring_case(uri, "sgnl://"@) || starts_with_ignoring_case(
        uri,
        "signalcaptcha://"@,
    )
}

fn starts_ignoring_case(s: &Vec<char>, p: &Vec<char>) -> (r: bool)
    ensures
        r == starts_with_ignoring_case(s@, p@),
{
    if p.len() > s.len() {
        return false;
    }
    let mut i: usize = 0;
    while i < p.len()
        invariant
            p@.len() <= s@.len(),
            i <= p@.len(),
            forall|k: int| 0 <= k < i ==> ascii_lower(#[trigger] s@[k]) == ascii_lower(p@[k]),
        decreases p.len() - i,
    {
        if to_ascii_lower(s[i]) != to_ascii_lower(p[i]) {
            assert(s@.take(p@.len() as int)[i as int] == s@[i as int]);
            return false;
        }
        i = i + 1;
    }
    assert forall|k: int| 0 <= k < p@.len() implies ascii_lower(
        #[trigger] s@.take(p@.len() as int)[k],
    ) == ascii_lower(p@[k]) by {
        assert(s@.take(p@.len() as int)[k] == s@[k]);
    }
    true
}

pub fn is_signal_link(uri: &str) -> (r: bool)
    ensures
        r == signal_link(uri@),
{
    let u = chars_of(uri);
    starts_ignoring_case(&u, &chars_of("sgnl://")) || starts_ignoring_case(
        &u,
        &chars_of("signalcaptcha://"),
    )
}

/// Where a link goes: straight to one profile, or ask among these (by key).
#[derive(Debug, PartialEq)]
pub enum Route {
    To(String),
    Ask(Vec<String>),
}

/// Profiles that may receive links, in order: every one but a locked default.
pub open spec fn usable(profiles: Seq<Profile>) -> Seq<Profile>
    decreases profiles.len(),
{
    if profiles.len() == 0 {
        profiles
    } else if profiles.last().locked {
        usable(profiles.drop_last())
    } else {
        usable(profiles.drop_last()).push(profiles.last())
    }
}

/// The usable profiles that are running, in order.
pub open spec fn running_usable(profiles: Seq<Profile>) -> Seq<Profile>
    decreases profiles.len(),
{
    if profiles.len() == 0 {
        profiles
    } else if profiles.last().locked || !profiles.last().running {
        running_usable(profiles.drop_last())
    } else {
        running_usable(profiles.drop_last()).push(profiles.last())
    }
}

pub open spec fn names_of(profiles: Seq<Profile>) -> Seq<Seq<char>> {
    profiles.map_values(|p: Profile| p.name@)
}

/// The single running usable profile gets the link; otherwise the user is
/// asked among the running ones, or among all usable ones if none runs.
pub open spec fn route_of(profiles: Seq<Profile>, r: Route) -> bool {
    let running = running_usable(profiles);
    if running.len() == 1 {
        r matches Route::To(n) && n@ == running[0].name@
    } else if running.len() == 0 {
        r matches Route::Ask(v) && texts(v@) == names_of(usable(profiles))
    } else {
        r matches Route::Ask(v) && texts(v@) == names_of(running)
    }
}

/// The single running profile gets the link (it's the one that asked);
/// otherwise the user picks among the running ones, or all if none runs.
/// A locked default is never offered.
pub fn route(profiles: &[Profile]) -> (r: Route)
    ensures
        route_of(profiles@, r),
{
    let ghost ps = profiles@;
    let mut all: Vec<String> = Vec::new();
    let mut running: Vec<String> = Vec::new();
    let mut i: usize = 0;
    while i < profiles.len()
        invariant
            ps == profiles@,
            i <= ps.len(),
            texts(all@) == names_of(usable(ps.take(i as int))),
            texts(running@) == names_of(running_usable(ps.take(i as int))),
        decreases profiles.len() - i,
    {
        let p = &profiles[i];
        proof {
            assert(ps.take(i + 1) =~= ps.take(i as int).push(ps[i as int]));
            assert(ps.take(i + 1).drop_last() =~= ps.take(i as int));
        }
        if !p.locked {
            let ghost before = all@;
            all.push(p.name.clone());
            proof {
                assert(texts(all@) =~= texts(before).push(
                    p.name@,
                ));
                assert(usable(ps.take(i + 1)) =~= usable(ps.take(i as int)).push(ps[i as int]));
            }
            if p.running {
                let ghost before_r = running@;
                running.push(p.name.clone());
                proof {
                    assert(texts(running@) =~= texts(before_r).push(p.name@));
                    assert(running_usable(ps.take(i + 1)) =~= running_usable(
                        ps.take(i as int),
                    ).push(ps[i as int]));
                }
            } else {
                assert(running_usable(ps.take(i + 1)) =~= running_usable(ps.take(i as int)));
            }
        } else {
            assert(usable(ps.take(i + 1)) =~= usable(ps.take(i as int)));
        }
        i = i + 1;
    }
    assert(ps.take(ps.len() as int) =~= ps);
    if running.len() == 1 {
        let name = running[0].clone();
        proof {
            assert(texts(running@)[0] == running@[0]@);
            assert(names_of(running_usable(ps))[0] == running_usable(ps)[0].name@);
        }
        Route::To(name)
    } else if running.len() == 0 {
        Route::Ask(all)
    } else {
        Route::Ask(running)
    }
}

/// Every usable profile is an unlocked profile of the list, and every running
/// usable one also runs.
proof fn lemma_usable_members(profiles: Seq<Profile>)
    ensures
        forall|k: int|
            0 <= k < usable(profiles).len() ==> exists|i: int|
                0 <= i < profiles.len() && profiles[i] == #[trigger] usable(profiles)[k]
                    && !profiles[i].locked,
        forall|k: int|
            0 <= k < running_usable(profiles).len() ==> exists|i: int|
                0 <= i < profiles.len() && profiles[i] == #[trigger] running_usable(profiles)[k]
                    && !profiles[i].locked && profiles[i].running,
    decreases profiles.len(),
{
    if profiles.len() > 0 {
        let init = profiles.drop_last();
        lemma_usable_members(init);
        assert forall|k: int| 0 <= k < usable(profiles).len() implies exists|i: int|
            0 <= i < profiles.len() && profiles[i] == #[trigger] usable(profiles)[k]
                && !profiles[i].locked by {
            if k < usable(init).len() {
                assert(usable(profiles)[k] == usable(init)[k]);
                let i = choose|i: int|
                    0 <= i < init.len() && init[i] == #[trigger] usable(init)[k] && !init[i].locked;
                assert(profiles[i] == init[i]);
            } else {
                assert(profiles[profiles.len() - 1] == profiles.last());
            }
        }
        assert forall|k: int| 0 <= k < running_usable(profiles).len() implies exists|i: int|
            0 <= i < profiles.len() && profiles[i] == #[trigger] running_usable(profiles)[k]
                && !profiles[i].locked && profiles[i].running by {
            if k < running_usable(init).len() {
                assert(running_usable(profiles)[k] == running_usable(init)[k]);
                let i = choose|i: int|
                    0 <= i < init.len() && init[i] == #[trigger] running_usable(init)[k]
                        && !init[i].locked && init[i].running;
                assert(profiles[i] == init[i]);
            } else {
                assert(profiles[profiles.len() - 1] == profiles.last());
            }
        }
    }
}

/// Some profile of the list has this name and is not locked (and runs, when
/// `running` is asked for).
pub open spec fn unlocked_named(profiles: Seq<Profile>, n: Seq<char>, running: bool) -> bool {
    exists|i: int|
        0 <= i < profiles.len() && #[trigger] profiles[i].name@ == n && !profiles[i].locked && (
        !running || profiles[i].running)
}

/// A link never goes to, and is never offered to, a locked profile: the
/// profile a link goes to is unlocked and running, and every profile asked
/// about is unlocked.
pub proof fn locked_profiles_never_get_links(profiles: Seq<Profile>, r: Route)
    requires
        route_of(profiles, r),
    ensures
        r matches Route::To(n) ==> unlocked_named(profiles, n@, true),
        r matches Route::Ask(v) ==> forall|k: int|
            0 <= k < v@.len() ==> unlocked_named(profiles, #[trigger] v@[k]@, false),
{
    lemma_usable_members(profiles);
    let running = running_usable(profiles);
    match r {
        Route::To(n) => {
            let i = choose|i: int|
                0 <= i < profiles.len() && profiles[i] == #[trigger] running[0] && !profiles[i].locked
                    && profiles[i].running;
            assert(profiles[i].name@ == n@);
        },
        Route::Ask(v) => {
            assert(running.len() != 1);
            let from = if running.len() == 0 {
                usable(profiles)
            } else {
                running
            };
            assert(texts(v@) == names_of(from));
            assert(names_of(from).len() == from.len());
            assert forall|k: int| 0 <= k < v@.len() implies unlocked_named(
                profiles,
                #[trigger] v@[k]@,
                false,
            ) by {
                assert(texts(v@)[k] == v@[k]@);
                assert(names_of(from)[k] == from[k].name@);
                let i = choose|i: int|
                    0 <= i < profiles.len() && profiles[i] == #[trigger] from[k] && !profiles[i].locked;
                assert(profiles[i].name@ == v@[k]@);
            }
        },
    }
}

} // verus!
