//! Signal Profiles as the handler of Signal links: the content types it
//! claims, and whether it still has to claim them.

use crate::links::SCHEMES;
use crate::text::push_str;
use vstd::prelude::*;

verus! {

/// Our desktop-file ID.
pub const DESKTOP_ID: &'static str = "io.github.multisignal.MultiSignal.desktop";

/// The content type of links with a scheme.
pub fn content_type(scheme: &str) -> (r: String)
    ensures
        r@ == "x-scheme-handler/"@ + scheme@,
{
    let mut t = "x-scheme-handler/".to_owned();
    push_str(&mut t, scheme);
    t
}

/// The content types of every Signal link scheme, in the order of `SCHEMES`.
pub fn content_types() -> (r: Vec<String>)
    ensures
        r@.len() == SCHEMES@.len(),
        forall|i: int| 0 <= i < r@.len() ==> #[trigger] r@[i]@ == "x-scheme-handler/"@ + SCHEMES@[i]@,
{
    let mut out: Vec<String> = Vec::new();
    let mut i: usize = 0;
    while i < SCHEMES.len()
        invariant
            i <= SCHEMES@.len(),
            out@.len() == i,
            forall|k: int| 0 <= k < i ==> #[trigger] out@[k]@ == "x-scheme-handler/"@ + SCHEMES@[k]@,
        decreases SCHEMES.len() - i,
    {
        out.push(content_type(SCHEMES[i]));
        i = i + 1;
    }
    out
}

/// On the first run only the links are claimed: `claimed` is the saved
/// `[links] claimed=` flag, if any; after a claim, the user's choice is left
/// alone.
pub fn needs_claim(claimed: Option<bool>) -> (r: bool)
    ensures
        r == !(claimed == Some(true)),
{
    match claimed {
        Some(true) => false,
        _ => true,
    }
}

} // verus!
