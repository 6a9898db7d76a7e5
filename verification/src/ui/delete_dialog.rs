//! "Move “Damon” to the Trash?": the texts of the dialog that confirms
//! moving a profile to the Trash.

use crate::text::push_str;
use crate::units::{size, size_text};
use vstd::prelude::*;

verus! {

/// The dialog's title for a profile.
pub fn title(name: &str) -> (r: String)
    ensures
        r@ == "Move \u{201c}"@ + name@ + "\u{201d} to the Trash?"@,
{
    let mut t = "Move \u{201c}".to_owned();
    push_str(&mut t, name);
    push_str(&mut t, "\u{201d} to the Trash?");
    t
}

/// The dialog's text: what moves, with the size of the profile's data.
pub fn body(size_bytes: u64) -> (r: String)
    ensures
        r@ == "Its messages ("@ + size_text(size_bytes as nat)
            + ") and app menu entry move to the Trash. You can restore them from the Trash until it\u{2019}s emptied."@,
{
    let mut t = "Its messages (".to_owned();
    let s = size(size_bytes);
    push_str(&mut t, s.as_str());
    push_str(
        &mut t,
        ") and app menu entry move to the Trash. You can restore them from the Trash until it\u{2019}s emptied.",
    );
    t
}

} // verus!
