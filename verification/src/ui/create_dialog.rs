//! The name dialog: "New Profile", or "Move to a Profile" for the default
//! Signal's data. It validates the name as you type.

use crate::names::{is_valid, suggest, suggestion, valid_name};
use crate::profiles::existing_ignoring_case;
use crate::store::{new_name_outcome, CreateError};
use crate::text::{
    chars_of, eq_ignore_ascii_case, push_str, same_ignoring_ascii_case, string_of, texts, trim,
    trim_chars,
};
use crate::units::{size, size_text};
use vstd::prelude::*;

verus! {

#[derive(Clone, Debug, PartialEq)]
pub enum Validation {
    /// Nothing typed yet: show the hint, not an error.
    Empty,
    /// A valid name that is not taken.
    Valid,
    Invalid { suggestion: Option<String> },
    Exists(String),
}

/// What a typed name is, against the existing profile `names`.
pub open spec fn validation_of(input: Seq<char>, names: Seq<Seq<char>>, v: Validation) -> bool {
    let name = trim(input);
    if name.len() == 0 {
        v == Validation::Empty
    } else if !valid_name(name) {
        v matches Validation::Invalid { suggestion: s } && match s {
            Some(f) => suggestion(name) == Some(f@),
            None => suggestion(name) is None,
        }
    } else if exists|k: int| 0 <= k < names.len() && eq_ignore_ascii_case(#[trigger] names[k], name) {
        v matches Validation::Exists(n) && exists|k: int|
            0 <= k < names.len() && names[k] == n@ && eq_ignore_ascii_case(n@, name) && forall|j: int|
                0 <= j < k ==> !eq_ignore_ascii_case(#[trigger] names[j], name)
    } else {
        v == Validation::Valid
    }
}

/// Checks a typed name without touching the disk (`names` are the existing
/// profile names).
pub fn validate(input: &str, names: &[String]) -> (v: Validation)
    ensures
        validation_of(input@, texts(names@), v),
{
    let t = trim_chars(&chars_of(input));
    let name = string_of(t.as_slice());
    if t.len() == 0 {
        Validation::Empty
    } else if !is_valid(name.as_str()) {
        Validation::Invalid { suggestion: suggest(name.as_str()) }
    } else {
        match existing_ignoring_case(names, name.as_str()) {
            Some(existing) => {
                proof {
                    let k = choose|k: int|
                        0 <= k < names@.len() && names@[k]@ == existing@ && eq_ignore_ascii_case(
                            existing@,
                            name@,
                        ) && forall|j: int|
                            0 <= j < k ==> !eq_ignore_ascii_case(#[trigger] names@[j]@, name@);
                    assert(texts(names@)[k] == existing@);
                    assert(eq_ignore_ascii_case(texts(names@)[k], name@));
                    assert forall|j: int| 0 <= j < k implies !eq_ignore_ascii_case(
                        #[trigger] texts(names@)[j],
                        name@,
                    ) by {
                        assert(texts(names@)[j] == names@[j]@);
                    }
                }
                Validation::Exists(existing)
            },
            None => {
                proof {
                    assert forall|k: int| 0 <= k < texts(names@).len() implies !eq_ignore_ascii_case(
                        #[trigger] texts(names@)[k],
                        name@,
                    ) by {
                        assert(texts(names@)[k] == names@[k]@);
                    }
                }
                Validation::Valid
            },
        }
    }
}

/// A new profile is validated like any name, and may also not take the
/// name the user gave the default Signal (`default_title`), ignoring case:
/// both would show in the app menu as the same Signal.
pub fn validate_new_name(input: &str, names: &[String], default_title: Option<&str>) -> (v:
    Validation)
    ensures
        ({
            let name = trim(input@);
            match default_title {
                Some(t) => if valid_name(name) && eq_ignore_ascii_case(t@, name) && forall|k: int|
                    0 <= k < names@.len() ==> !eq_ignore_ascii_case(#[trigger] names@[k]@, name) {
                    v matches Validation::Exists(n) && n@ == t@
                } else {
                    validation_of(input@, texts(names@), v)
                },
                None => validation_of(input@, texts(names@), v),
            }
        }),
{
    let v = validate(input, names);
    match default_title {
        Some(t) => {
            if matches!(v, Validation::Valid) && same_ignoring_ascii_case(
                &chars_of(t),
                &trim_chars(&chars_of(input)),
            ) {
                proof {
                    assert forall|k: int| 0 <= k < names@.len() implies !eq_ignore_ascii_case(
                        #[trigger] names@[k]@,
                        trim(input@),
                    ) by {
                        assert(texts(names@)[k] == names@[k]@);
                    }
                }
                Validation::Exists(t.to_owned())
            } else {
                proof {
                    if valid_name(trim(input@)) && eq_ignore_ascii_case(t@, trim(input@)) && forall|k: int|
                        0 <= k < names@.len() ==> !eq_ignore_ascii_case(#[trigger] names@[k]@, trim(input@)) {
                        assert forall|k: int| 0 <= k < texts(names@).len() implies !eq_ignore_ascii_case(
                            #[trigger] texts(names@)[k],
                            trim(input@),
                        ) by {
                            assert(texts(names@)[k] == names@[k]@);
                        }
                        assert(trim(input@).len() > 0);
                    }
                }
                v
            }
        },
        None => v,
    }
}

pub const HINT: &'static str = "Letters, digits, dot, underscore and dash.";

/// The line under the field: its text, and whether it reports an error.
pub open spec fn status_of(v: Validation) -> (Seq<char>, bool) {
    match v {
        Validation::Empty | Validation::Valid => (HINT@, false),
        Validation::Invalid { suggestion: Some(_) } => (
            "Spaces and symbols aren\u{2019}t allowed."@,
            true,
        ),
        Validation::Invalid { suggestion: None } => (
            "Use letters, digits, dot, underscore and dash."@,
            true,
        ),
        Validation::Exists(name) => ("\u{201c}"@ + name@ + "\u{201d} already exists."@, true),
    }
}

/// The line under the field: (text, is_error).
pub fn status(v: &Validation) -> (r: (String, bool))
    ensures
        (r.0@, r.1) == status_of(*v),
{
    match v {
        Validation::Empty | Validation::Valid => (HINT.to_owned(), false),
        Validation::Invalid { suggestion: Some(_) } => (
            "Spaces and symbols aren\u{2019}t allowed.".to_owned(),
            true,
        ),
        Validation::Invalid { suggestion: None } => (
            "Use letters, digits, dot, underscore and dash.".to_owned(),
            true,
        ),
        Validation::Exists(name) => {
            let mut m = "\u{201c}".to_owned();
            push_str(&mut m, name.as_str());
            push_str(&mut m, "\u{201d} already exists.");
            (m, true)
        },
    }
}

/// What the name is for.
#[derive(Clone, Copy, Debug, PartialEq)]
pub enum Purpose {
    /// A new, empty profile.
    NewProfile,
    /// A profile made from the default Signal's data (its size in bytes).
    AdoptDefault(u64),
}

pub open spec fn body_of(p: Purpose, name: Seq<char>) -> Seq<char> {
    match p {
        Purpose::NewProfile => "A separate Signal account with its own messages. It appears in your app menu as \u{201c}Signal ("@
            + name + ")\u{201d}."@,
        Purpose::AdoptDefault(bytes) => "Moves the default Signal\u{2019}s messages ("@ + size_text(
            bytes as nat,
        ) + ") into ~/Signal/"@ + name + ", with its own app menu entry \u{201c}Signal ("@ + name
            + ")\u{201d}. The default Signal is left empty."@,
    }
}

impl Purpose {
    pub fn title(self) -> (r: &'static str)
        ensures
            r@ == match self {
                Purpose::NewProfile => "New Profile"@,
                Purpose::AdoptDefault(_) => "Move to a Profile"@,
            },
    {
        match self {
            Purpose::NewProfile => "New Profile",
            Purpose::AdoptDefault(_) => "Move to a Profile",
        }
    }

    pub fn button(self) -> (r: &'static str)
        ensures
            r@ == match self {
                Purpose::NewProfile => "Create Profile"@,
                Purpose::AdoptDefault(_) => "Move"@,
            },
    {
        match self {
            Purpose::NewProfile => "Create Profile",
            Purpose::AdoptDefault(_) => "Move",
        }
    }

    pub fn body(self, name: &str) -> (r: String)
        ensures
            r@ == body_of(self, name@),
    {
        let mut m = String::new();
        match self {
            Purpose::NewProfile => {
                push_str(
                    &mut m,
                    "A separate Signal account with its own messages. It appears in your app menu as \u{201c}Signal (",
                );
                push_str(&mut m, name);
                push_str(&mut m, ")\u{201d}.");
            },
            Purpose::AdoptDefault(bytes) => {
                push_str(&mut m, "Moves the default Signal\u{2019}s messages (");
                let s = size(bytes);
                push_str(&mut m, s.as_str());
                push_str(&mut m, ") into ~/Signal/");
                push_str(&mut m, name);
                push_str(&mut m, ", with its own app menu entry \u{201c}Signal (");
                push_str(&mut m, name);
                push_str(&mut m, ")\u{201d}. The default Signal is left empty.");
            },
        }
        m
    }
}

/// The fix-it button's label for a suggested name.
pub fn fix_label(fix: &str) -> (r: String)
    ensures
        r@ == "Use \u{201c}"@ + fix@ + "\u{201d}"@,
{
    let mut t = "Use \u{201c}".to_owned();
    push_str(&mut t, fix);
    push_str(&mut t, "\u{201d}");
    t
}

/// The name shown in the dialog's text while typing: the typed name once it
/// is usable, else "name".
pub fn preview(input: &str, v: &Validation) -> (r: String)
    ensures
        r@ == if *v == Validation::Valid {
            trim(input@)
        } else {
            "name"@
        },
{
    match v {
        Validation::Valid => string_of(trim_chars(&chars_of(input)).as_slice()),
        _ => "name".to_owned(),
    }
}

/// The dialog and the store agree on a typed name: the dialog accepts it
/// exactly when creating a profile under it goes ahead, rejects it as invalid
/// (with the same suggestion) exactly when the store does, and reports the
/// same existing profile when the name is taken.
pub proof fn validation_agrees_with_creating(
    input: Seq<char>,
    names: Seq<Seq<char>>,
    v: Validation,
    r: Result<String, CreateError>,
)
    requires
        trim(input).len() > 0,
        validation_of(input, names, v),
        new_name_outcome(input, names, r),
    ensures
        v == Validation::Valid <==> r is Ok,
        (v matches Validation::Invalid { suggestion: s }) <==> (r matches Err(
            CreateError::Invalid { .. },
        )),
        v matches Validation::Invalid { suggestion: s } ==> (r matches Err(
            CreateError::Invalid { suggestion: t, .. },
        ) && opt_texts_equal(s, t)),
        (v is Exists) <==> (r matches Err(CreateError::Exists(_))),
        v matches Validation::Exists(a) ==> (r matches Err(CreateError::Exists(b)) && a@ == b@),
{
    let name = trim(input);
    if valid_name(name) && exists|k: int|
        0 <= k < names.len() && eq_ignore_ascii_case(#[trigger] names[k], name) {
        if let Validation::Exists(a) = v {
            if let Err(CreateError::Exists(b)) = r {
                let i = choose|k: int|
                    0 <= k < names.len() && names[k] == a@ && eq_ignore_ascii_case(a@, name)
                        && forall|j: int|
                        0 <= j < k ==> !eq_ignore_ascii_case(#[trigger] names[j], name);
                let l = choose|k: int|
                    0 <= k < names.len() && names[k] == b@ && eq_ignore_ascii_case(b@, name)
                        && forall|j: int|
                        0 <= j < k ==> !eq_ignore_ascii_case(#[trigger] names[j], name);
                if i < l {
                    assert(!eq_ignore_ascii_case(names[i], name));
                }
                if l < i {
                    assert(!eq_ignore_ascii_case(names[l], name));
                }
            }
        }
    }
}

/// Two optional names that read the same.
pub open spec fn opt_texts_equal(a: Option<String>, b: Option<String>) -> bool {
    match (a, b) {
        (Some(x), Some(y)) => x@ == y@,
        (None, None) => true,
        _ => false,
    }
}

} // verus!
