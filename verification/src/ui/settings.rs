//! The choices kept in the settings file (window size and appearance live in
//! a key file that the application reads and writes).

use crate::text::{chars_of, string_of, str_eq, trim, trim_chars};
use vstd::prelude::*;

verus! {

/// Light or dark, or follow GNOME ("system", shown as Automatic).
#[derive(Clone, Copy, Debug, PartialEq, Eq, Structural)]
pub enum Appearance {
    System,
    Light,
    Dark,
}

pub open spec fn id_of(a: Appearance) -> Seq<char> {
    match a {
        Appearance::System => "system"@,
        Appearance::Light => "light"@,
        Appearance::Dark => "dark"@,
    }
}

pub open spec fn label_of(a: Appearance) -> Seq<char> {
    match a {
        Appearance::System => "Automatic"@,
        Appearance::Light => "Light"@,
        Appearance::Dark => "Dark"@,
    }
}

/// The appearance stored under an id.
pub open spec fn appearance_for(id: Seq<char>) -> Option<Appearance> {
    if id == "system"@ {
        Some(Appearance::System)
    } else if id == "light"@ {
        Some(Appearance::Light)
    } else if id == "dark"@ {
        Some(Appearance::Dark)
    } else {
        None
    }
}

impl Appearance {
    pub const ALL: [Appearance; 3] = [Appearance::System, Appearance::Light, Appearance::Dark];

    /// The value stored in the settings file and used as the action target.
    pub fn id(self) -> (r: &'static str)
        ensures
            r@ == id_of(self),
    {
        match self {
            Appearance::System => "system",
            Appearance::Light => "light",
            Appearance::Dark => "dark",
        }
    }

    pub fn label(self) -> (r: &'static str)
        ensures
            r@ == label_of(self),
    {
        match self {
            Appearance::System => "Automatic",
            Appearance::Light => "Light",
            Appearance::Dark => "Dark",
        }
    }

    pub fn from_id(id: &str) -> (r: Option<Self>)
        ensures
            r == appearance_for(id@),
    {
        if str_eq(id, "system") {
            Some(Appearance::System)
        } else if str_eq(id, "light") {
            Some(Appearance::Light)
        } else if str_eq(id, "dark") {
            Some(Appearance::Dark)
        } else {
            None
        }
    }

    /// The saved choice, if the user ever made one (`mode` is the stored
    /// `[appearance] mode=` value, if any).
    pub fn load(mode: Option<&str>) -> (r: Option<Self>)
        ensures
            r == match mode {
                Some(m) => appearance_for(m@),
                None => None,
            },
    {
        match mode {
            Some(m) => Self::from_id(m),
            None => None,
        }
    }
}

/// Each appearance is found again by its id, and the ids differ.
pub proof fn ids_round_trip(a: Appearance)
    ensures
        appearance_for(id_of(a)) == Some(a),
{
    reveal_strlit("system");
    reveal_strlit("light");
    reveal_strlit("dark");
    assert("light"@ != "system"@) by {
        assert("light"@.len() != "system"@.len());
    }
    assert("dark"@ != "system"@) by {
        assert("dark"@.len() != "system"@.len());
    }
    assert("dark"@ != "light"@) by {
        assert("dark"@.len() != "light"@.len());
    }
}

/// The user's name for the default Signal (`[default] name=`, given as
/// `value`), if set: trimmed, and only when something is left.
pub fn default_title(value: Option<&str>) -> (r: Option<String>)
    ensures
        match value {
            Some(v) => if trim(v@).len() > 0 {
                r matches Some(t) && t@ == trim(v@)
            } else {
                r is None
            },
            None => r is None,
        },
{
    match value {
        Some(v) => {
            let t = trim_chars(&chars_of(v));
            if t.len() > 0 {
                Some(string_of(t.as_slice()))
            } else {
                None
            }
        },
        None => None,
    }
}

/// The saved window size, used when both are known and at least the
/// smallest size the window allows (360 × 480).
pub fn restored_size(width: Option<i32>, height: Option<i32>) -> (r: Option<(i32, i32)>)
    ensures
        r == match (width, height) {
            (Some(w), Some(h)) => if w >= 360 && h >= 480 {
                Some((w, h))
            } else {
                None
            },
            _ => None,
        },
{
    match (width, height) {
        (Some(w), Some(h)) => if w >= 360 && h >= 480 {
            Some((w, h))
        } else {
            None
        },
        _ => None,
    }
}

} // verus!
