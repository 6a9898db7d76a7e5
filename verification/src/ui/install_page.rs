//! The texts of the whole-window "Signal Desktop Isn’t Installed" page.

use crate::text::push_str;
use vstd::prelude::*;

verus! {

pub const TITLE: &'static str = "Signal Desktop Isn\u{2019}t Installed";

/// The page's text; `other` says how Signal is installed otherwise
/// ("Flatpak", "apt"), if at all.
pub fn body(other: Option<&str>) -> (r: String)
    ensures
        r@ == "Signal Profiles uses the Signal snap. Installing it needs your password."@ + match other {
            Some(o) => " The "@ + o@ + " version of Signal that is installed can\u{2019}t be used for profiles."@,
            None => ""@,
        },
{
    let mut text = "Signal Profiles uses the Signal snap. Installing it needs your password.".to_owned();
    proof {
        reveal_strlit("");
    }
    match other {
        Some(o) => {
            push_str(&mut text, " The ");
            push_str(&mut text, o);
            push_str(&mut text, " version of Signal that is installed can\u{2019}t be used for profiles.");
        },
        None => {
            assert(text@ =~= text@ + ""@);
        },
    }
    text
}

} // verus!
