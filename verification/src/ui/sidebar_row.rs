//! The secondary line of a sidebar row: a warning when the profile has no
//! app menu entry, "Running" when it runs, then its size.

use crate::profiles::Profile;
use crate::text::push_str;
use crate::units::{size, size_text};
use vstd::prelude::*;

verus! {

pub open spec fn secondary_text_of(p: Profile) -> Seq<char> {
    (if p.launchers@.len() == 0 {
        "No app menu entry \u{b7} "@
    } else {
        ""@
    }) + (if p.running {
        "Running \u{b7} "@
    } else {
        ""@
    }) + size_text(p.size_bytes as nat)
}

/// The row's secondary line, e.g. "Running · 77 MB".
pub fn secondary_text(p: &Profile) -> (r: String)
    ensures
        r@ == secondary_text_of(*p),
{
    let mut out = String::new();
    proof {
        reveal_strlit("");
    }
    if p.launchers.len() == 0 {
        push_str(&mut out, "No app menu entry \u{b7} ");
    }
    let ghost first = out@;
    if p.running {
        push_str(&mut out, "Running \u{b7} ");
    }
    let s = size(p.size_bytes);
    push_str(&mut out, s.as_str());
    proof {
        let a = if p.launchers@.len() == 0 {
            "No app menu entry \u{b7} "@
        } else {
            ""@
        };
        let b = if p.running {
            "Running \u{b7} "@
        } else {
            ""@
        };
        assert(first =~= a);
        assert(out@ =~= a + b + size_text(p.size_bytes as nat));
    }
    out
}

} // verus!
