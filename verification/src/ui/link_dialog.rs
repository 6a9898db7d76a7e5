//! "Which Signal is this link for?": the texts of the dialog that asks which
//! profile gets a Signal link when more than one (or none) is running.

use crate::profiles::Profile;
use vstd::prelude::*;

verus! {

pub const TITLE: &'static str = "Which Signal is this link for?";

/// Some candidate runs.
pub open spec fn any_running(candidates: Seq<Profile>) -> bool {
    exists|i: int| 0 <= i < candidates.len() && #[trigger] candidates[i].running
}

/// The dialog's text: pick the instance that asked when some run, else the
/// profile to open with the link.
pub fn body(candidates: &[Profile]) -> (r: &'static str)
    ensures
        r@ == if any_running(candidates@) {
            "More than one Signal is running. Choose the one that asked for this link, for example to finish a captcha."@
        } else {
            "No Signal is running. Choose the profile to open with this link."@
        },
{
    let mut i: usize = 0;
    while i < candidates.len()
        invariant
            i <= candidates@.len(),
            forall|k: int| 0 <= k < i ==> !(#[trigger] candidates@[k]).running,
        decreases candidates.len() - i,
    {
        if candidates[i].running {
            return "More than one Signal is running. Choose the one that asked for this link, for example to finish a captcha.";
        }
        i = i + 1;
    }
    "No Signal is running. Choose the profile to open with this link."
}

} // verus!
