//! What the window shows, as text and choices; the GTK widgets that show it
//! live in the application.

pub mod avatar;
pub mod create_dialog;
pub mod delete_dialog;
pub mod detail;
pub mod install_page;
pub mod link_dialog;
pub mod link_handler;
pub mod settings;
pub mod sidebar_row;
pub mod window;

use crate::text::push_str;
use crate::units::{push_decimal, size, size_text};
use vstd::prelude::*;

verus! {

/// "3 profiles · 1 running · 208 MB" (the running part only when non-zero).
pub open spec fn summary_text(count: nat, running: nat, bytes: nat) -> Seq<char> {
    let noun = if count == 1 {
        "profile"@
    } else {
        "profiles"@
    };
    let head = crate::units::decimal(count) + " "@ + noun;
    if running > 0 {
        head + " \u{b7} "@ + crate::units::decimal(running) + " running"@ + " \u{b7} "@
            + size_text(bytes)
    } else {
        head + " \u{b7} "@ + size_text(bytes)
    }
}

/// "3 profiles · 1 running · 208 MB" (the running part only when non-zero).
pub fn summary_line(count: usize, running: usize, bytes: u64) -> (r: String)
    ensures
        r@ == summary_text(count as nat, running as nat, bytes as nat),
{
    let mut out = String::new();
    push_decimal(&mut out, count as u128);
    if count == 1 {
        push_str(&mut out, " profile");
    } else {
        push_str(&mut out, " profiles");
    }
    proof {
        reveal_strlit(" profile");
        reveal_strlit(" profiles");
        reveal_strlit(" ");
        reveal_strlit("profile");
        reveal_strlit("profiles");
    }
    if running > 0 {
        push_str(&mut out, " \u{b7} ");
        push_decimal(&mut out, running as u128);
        push_str(&mut out, " running");
    }
    push_str(&mut out, " \u{b7} ");
    let s = size(bytes);
    push_str(&mut out, s.as_str());
    out
}

} // verus!
