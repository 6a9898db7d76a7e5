//! Round initial badges. The colour is picked from the name, so a profile
//! keeps its colour when others are added or removed.

use crate::text::{chars_of, string_of, trim, trim_chars};
use vstd::prelude::*;

verus! {

pub const COLORS: usize = 6;

/// `char::to_uppercase`: the upper-case mapping of a character (one or more
/// characters, from Unicode's case tables).
pub uninterp spec fn upper_case(c: char) -> Seq<char>;

/// Calls `char::to_uppercase` and collects the characters it yields. The
/// contract names the result; it states nothing of Unicode's tables.
#[verifier::external_body]
fn to_upper(c: char) -> (r: String)
    ensures
        r@ == upper_case(c),
{
    c.to_uppercase().collect()
}

/// `str::to_lowercase` as UTF-8 bytes: the lower-case mapping of a text
/// (from Unicode's case tables, with the final-sigma rule) encoded in UTF-8.
pub uninterp spec fn lower_case_bytes(s: Seq<char>) -> Seq<u8>;

/// Calls `str::to_lowercase` and takes the bytes of the result. The contract
/// names the result; it states nothing of Unicode's tables.
#[verifier::external_body]
fn to_lower_bytes(s: &str) -> (r: Vec<u8>)
    ensures
        r@ == lower_case_bytes(s@),
{
    s.to_lowercase().into_bytes()
}

/// The badge text: the upper-case form of the name's first character, "+"
/// for a blank name.
pub open spec fn initial_of(name: Seq<char>) -> Seq<char> {
    if trim(name).len() == 0 {
        "+"@
    } else {
        upper_case(trim(name)[0])
    }
}

/// The name's initial ("+" when empty).
pub fn initial(name: &str) -> (r: String)
    ensures
        r@ == initial_of(name@),
{
    let t = trim_chars(&chars_of(name));
    if t.len() == 0 {
        "+".to_owned()
    } else {
        to_upper(t[0])
    }
}

/// The sum of some bytes.
pub open spec fn byte_sum(b: Seq<u8>) -> nat
    decreases b.len(),
{
    if b.len() == 0 {
        0
    } else {
        byte_sum(b.drop_last()) + b.last() as nat
    }
}

/// The badge colour: the byte sum of the trimmed, lower-case name, modulo
/// the number of colours.
pub open spec fn color_of(name: Seq<char>) -> nat {
    byte_sum(lower_case_bytes(trim(name))) % (COLORS as nat)
}

/// The badge colour of a name; it depends only on the name, not its place.
pub fn color_index(name: &str) -> (r: usize)
    ensures
        r == color_of(name@),
        r < COLORS,
{
    let t = string_of(trim_chars(&chars_of(name)).as_slice());
    let bytes = to_lower_bytes(t.as_str());
    let mut acc: usize = 0;
    let mut i: usize = 0;
    while i < bytes.len()
        invariant
            i <= bytes@.len(),
            acc < COLORS,
            acc == byte_sum(bytes@.take(i as int)) % (COLORS as nat),
        decreases bytes.len() - i,
    {
        assert(bytes@.take(i + 1).drop_last() =~= bytes@.take(i as int));
        proof {
            let s = byte_sum(bytes@.take(i as int));
            let b = bytes@[i as int] as nat;
            assert((s + b) % 6 == ((s % 6) + b) % 6) by (nonlinear_arith);
        }
        acc = (acc + bytes[i] as usize) % COLORS;
        i = i + 1;
    }
    assert(bytes@.take(bytes@.len() as int) =~= bytes@);
    acc
}

} // verus!
