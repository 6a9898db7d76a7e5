//! Create, delete, repair and launch profiles.
//!
//! What is on disk is read by the caller and handed in (which folders exist,
//! what runs, which launchers there are); the store decides, calls the
//! injected `Trash` and `Launch`, and says what the caller must write.

use crate::launcher::LauncherError;
use crate::links::{is_signal_link, signal_link};
use crate::lock::{
    after_change, is_locked, lock, lock_outcome, text_of, unlock, unlock_outcome, LockError,
    OverrideChange,
};
use crate::names::{is_valid, suggest, suggestion, valid_name};
use crate::paths::{file_name, file_name_of, path_join, Paths};
use crate::procs::{runs_in, Running};
use crate::profiles::{
    existing_ignoring_case, list_names, load_all, profile_folders, sort_by_key, DefaultData, Entry,
    Folder,
    Profile, DEFAULT_NAME,
};
use crate::text::{chars_of, eq_ignore_ascii_case, push_str, str_eq, texts, trim, trim_chars, string_of};
use crate::asked::{AskedLauncher, AskedTrash};
use vstd::prelude::*;

verus! {

broadcast use vstd::seq_lib::group_seq_properties;

/// An answer as text: done, or why not.
pub open spec fn answer_of(r: Result<(), String>) -> Result<(), Seq<char>> {
    match r {
        Ok(()) => Ok(()),
        Err(e) => Err(e@),
    }
}

/// Moves a path to the Trash. Real: gio. Tests: move into a temp dir.
pub trait Trash {
    fn trash(&self, path: &str) -> Result<(), String>;
}

/// What a launcher was asked to start: a profile by its name, or the
/// default Signal, each with the link it was given, if any.
pub enum Start {
    Profile(Seq<char>, Option<Seq<char>>),
    Default(Option<Seq<char>>),
}

/// Starts Signal for a profile. Real: `setsid -f`. Tests: record the call.
/// With a `link`, a Signal already running for that profile receives it.
/// It is only ever asked for a valid profile name, and only with a Signal
/// link.
pub trait Launch {
    fn launch(&self, paths: &Paths, name: &str, link: Option<&str>) -> Result<(), String>
        requires
            valid_name(name@),
            link matches Some(l) ==> signal_link(l@),
    ;

    /// Starts the Signal snap's own profile (no `--user-data-dir`).
    fn launch_default(&self, paths: &Paths, link: Option<&str>) -> Result<(), String>
        requires
            link matches Some(l) ==> signal_link(l@),
    ;
}

#[derive(Clone, Debug, PartialEq)]
pub enum CreateError {
    Invalid { input: String, suggestion: Option<String> },
    Exists(String),
    /// Creating the folder or writing its launcher failed (the reason).
    Io(String),
}

#[derive(Clone, Debug, PartialEq)]
pub enum DeleteError {
    NotFound(String),
    Running(String),
    Trash { name: String, reason: String },
}

#[derive(Clone, Debug, PartialEq)]
pub enum AdoptError {
    NoDefault,
    Running,
    Name(CreateError),
    /// Moving the data failed (the reason).
    Move(String),
    /// The data moved, but its launcher could not be written.
    Launcher { name: String, source: String },
}

/// Why Signal was not started.
#[derive(Clone, Debug, PartialEq)]
pub enum LaunchError {
    /// There is no such profile.
    NotFound(String),
    /// The default Signal is locked.
    Locked,
    /// The link is not a Signal link.
    NotALink(String),
    /// Starting Signal failed (the reason the launcher gave).
    Failed(String),
}

#[derive(Clone, Debug, Default, PartialEq)]
pub struct RepairReport {
    pub updated: Vec<String>,
    pub created: Vec<String>,
    /// (profile, launcher file name) left alone because it's hand-made.
    pub skipped: Vec<(String, String)>,
}

/// What was found on disk about a profile when repairing its launcher.
#[derive(Clone, Debug)]
pub struct RepairScan {
    pub name: String,
    /// This tool's launcher file (`Signal-<name>.desktop`) exists.
    pub own_exists: bool,
    /// The profile's launchers (see `launcher::find`).
    pub found: Vec<String>,
}

/// The launchers to write, in order, and the report to give once they are
/// written.
#[derive(Clone, Debug)]
pub struct RepairPlan {
    pub write: Vec<String>,
    pub report: RepairReport,
}

/// A repaired profile gets a launcher written: its own is rewritten, or a
/// missing one created.
pub open spec fn gets_written(s: RepairScan) -> bool {
    s.own_exists || s.found@.len() == 0
}

pub open spec fn names_written(scans: Seq<RepairScan>) -> Seq<Seq<char>>
    decreases scans.len(),
{
    if scans.len() == 0 {
        Seq::empty()
    } else if gets_written(scans.last()) {
        names_written(scans.drop_last()).push(scans.last().name@)
    } else {
        names_written(scans.drop_last())
    }
}

pub open spec fn names_updated(scans: Seq<RepairScan>) -> Seq<Seq<char>>
    decreases scans.len(),
{
    if scans.len() == 0 {
        Seq::empty()
    } else if scans.last().own_exists {
        names_updated(scans.drop_last()).push(scans.last().name@)
    } else {
        names_updated(scans.drop_last())
    }
}

pub open spec fn names_created(scans: Seq<RepairScan>) -> Seq<Seq<char>>
    decreases scans.len(),
{
    if scans.len() == 0 {
        Seq::empty()
    } else if !scans.last().own_exists && scans.last().found@.len() == 0 {
        names_created(scans.drop_last()).push(scans.last().name@)
    } else {
        names_created(scans.drop_last())
    }
}

/// (profile, file name of its first launcher) for profiles whose only
/// launchers are hand-made.
pub open spec fn names_skipped(scans: Seq<RepairScan>) -> Seq<(Seq<char>, Seq<char>)>
    decreases scans.len(),
{
    if scans.len() == 0 {
        Seq::empty()
    } else if !scans.last().own_exists && scans.last().found@.len() > 0 {
        names_skipped(scans.drop_last()).push(
            (scans.last().name@, file_name_of(scans.last().found@[0]@)),
        )
    } else {
        names_skipped(scans.drop_last())
    }
}

pub open spec fn pair_texts(v: Seq<(String, String)>) -> Seq<(Seq<char>, Seq<char>)> {
    v.map_values(|p: (String, String)| (p.0@, p.1@))
}

/// The name a profile is created under, or why not.
pub open spec fn new_name_outcome(input: Seq<char>, names: Seq<Seq<char>>, r: Result<String, CreateError>) -> bool {
    let name = trim(input);
    if !valid_name(name) {
        r matches Err(CreateError::Invalid { input: i, suggestion: s }) && i@ == name && match s {
            Some(f) => suggestion(name) == Some(f@),
            None => suggestion(name) is None,
        }
    } else if exists|k: int| 0 <= k < names.len() && eq_ignore_ascii_case(#[trigger] names[k], name) {
        r matches Err(CreateError::Exists(n)) && exists|k: int|
            0 <= k < names.len() && names[k] == n@ && eq_ignore_ascii_case(n@, name) && forall|j: int|
                0 <= j < k ==> !eq_ignore_ascii_case(#[trigger] names[j], name)
    } else {
        r matches Ok(n) && n@ == name
    }
}

/// Adopting the default Signal's data under the name `input`: refused
/// without a default folder, while it runs, for a name that creating would
/// refuse (see `new_name_outcome`, over the profile folders in list order),
/// and for a name some entry of `~/Signal` already has; else the trimmed
/// name.
pub open spec fn adopt_outcome(
    input: Seq<char>,
    default_exists: bool,
    default_running: bool,
    entries: Seq<Entry>,
    r: Result<String, AdoptError>,
) -> bool {
    let name = trim(input);
    let folders = sort_by_key(profile_folders(entries));
    if !default_exists {
        r == Err::<String, AdoptError>(AdoptError::NoDefault)
    } else if default_running {
        r == Err::<String, AdoptError>(AdoptError::Running)
    } else if !valid_name(name) || exists|k: int|
        0 <= k < folders.len() && eq_ignore_ascii_case(#[trigger] folders[k], name) {
        r matches Err(AdoptError::Name(e)) && new_name_outcome(input, folders, Err(e))
    } else if exists|k: int| 0 <= k < entries.len() && #[trigger] entries[k].name@ == name {
        r matches Err(AdoptError::Name(CreateError::Exists(n))) && n@ == name
    } else {
        r matches Ok(n) && n@ == name
    }
}

/// What must be moved to the Trash to delete a profile, in order, or why
/// nothing is.
pub open spec fn delete_plan_outcome(
    paths: Paths,
    name: Seq<char>,
    dir_exists: bool,
    running: Running,
    launchers: Result<Vec<String>, String>,
    r: Result<Vec<String>, DeleteError>,
) -> bool {
    let dir = path_join(paths.signal_base@, name);
    if !valid_name(name) || !dir_exists {
        r matches Err(DeleteError::NotFound(n)) && n@ == name
    } else if runs_in(running.data_dirs@, dir) {
        r matches Err(DeleteError::Running(n)) && n@ == name
    } else {
        match launchers {
            Err(reason) => r matches Err(DeleteError::Trash { name: n, reason: why }) && n@ == name
                && why@ == reason@,
            Ok(found) => r matches Ok(list) && texts(list@) == texts(found@).push(dir),
        }
    }
}

/// The Trash asked along a plan: for its paths in order, each done but the
/// last one asked, which ends it: a refusal, which deleting reports with
/// the Trash's reason, or done, as the plan's last path.
pub open spec fn trashed_along(
    plan: Seq<Seq<char>>,
    calls: Seq<(Seq<char>, Result<(), Seq<char>>)>,
    name: Seq<char>,
    r: Result<(), DeleteError>,
) -> bool {
    &&& 1 <= calls.len() <= plan.len()
    &&& forall|k: int| 0 <= k < calls.len() ==> (#[trigger] calls[k]).0 == plan[k]
    &&& forall|k: int| 0 <= k < calls.len() - 1 ==> (#[trigger] calls[k]).1 is Ok
    &&& match calls.last().1 {
        Ok(()) => calls.len() == plan.len() && r is Ok,
        Err(reason) => r matches Err(DeleteError::Trash { name: n, reason: why }) && n@ == name
            && why@ == reason,
    }
}

/// What deleting a profile comes to, with `calls` what the Trash was asked
/// meanwhile: refused as in `delete_plan_outcome` without asking the Trash
/// anything; else the Trash asked along the plan.
pub open spec fn delete_outcome(
    paths: Paths,
    name: Seq<char>,
    dir_exists: bool,
    running: Running,
    launchers: Result<Vec<String>, String>,
    calls: Seq<(Seq<char>, Result<(), Seq<char>>)>,
    r: Result<(), DeleteError>,
) -> bool {
    let dir = path_join(paths.signal_base@, name);
    if !valid_name(name) || !dir_exists {
        calls.len() == 0 && (r matches Err(DeleteError::NotFound(n)) && n@ == name)
    } else if runs_in(running.data_dirs@, dir) {
        calls.len() == 0 && (r matches Err(DeleteError::Running(n)) && n@ == name)
    } else {
        match launchers {
            Err(reason) => calls.len() == 0 && (r matches Err(
                DeleteError::Trash { name: n, reason: why },
            ) && n@ == name && why@ == reason@),
            Ok(found) => trashed_along(texts(found@).push(dir), calls, name, r),
        }
    }
}

impl CreateError {
    pub fn message(&self) -> (r: String)
        ensures
            r@ == match self {
                CreateError::Invalid { input, .. } => "\u{201c}"@ + input@
                    + "\u{201d} isn't a valid profile name"@,
                CreateError::Exists(n) => "A profile named \u{201c}"@ + n@ + "\u{201d} already exists"@,
                CreateError::Io(e) => "Could not create the profile: "@ + e@,
            },
    {
        let mut m = String::new();
        match self {
            CreateError::Invalid { input, .. } => {
                push_str(&mut m, "\u{201c}");
                push_str(&mut m, input.as_str());
                push_str(&mut m, "\u{201d} isn't a valid profile name");
            },
            CreateError::Exists(n) => {
                push_str(&mut m, "A profile named \u{201c}");
                push_str(&mut m, n.as_str());
                push_str(&mut m, "\u{201d} already exists");
            },
            CreateError::Io(e) => {
                push_str(&mut m, "Could not create the profile: ");
                push_str(&mut m, e.as_str());
            },
        }
        m
    }
}

impl DeleteError {
    pub fn message(&self) -> (r: String)
        ensures
            r@ == match self {
                DeleteError::NotFound(n) => "There is no profile named \u{201c}"@ + n@ + "\u{201d}"@,
                DeleteError::Running(n) => "Quit Signal ("@ + n@
                    + ") first. Closing its window can leave it running in the tray."@,
                DeleteError::Trash { name, reason } => "Could not move \u{201c}"@ + name@
                    + "\u{201d} to the Trash: "@ + reason@,
            },
    {
        let mut m = String::new();
        match self {
            DeleteError::NotFound(n) => {
                push_str(&mut m, "There is no profile named \u{201c}");
                push_str(&mut m, n.as_str());
                push_str(&mut m, "\u{201d}");
            },
            DeleteError::Running(n) => {
                push_str(&mut m, "Quit Signal (");
                push_str(&mut m, n.as_str());
                push_str(&mut m, ") first. Closing its window can leave it running in the tray.");
            },
            DeleteError::Trash { name, reason } => {
                push_str(&mut m, "Could not move \u{201c}");
                push_str(&mut m, name.as_str());
                push_str(&mut m, "\u{201d} to the Trash: ");
                push_str(&mut m, reason.as_str());
            },
        }
        m
    }
}

impl AdoptError {
    pub fn message(&self) -> (r: String)
        ensures
            r@ == match self {
                AdoptError::NoDefault => "The default Signal has no data to move"@,
                AdoptError::Running => "Quit the default Signal first. Closing its window can leave it running in the tray."@,
                AdoptError::Name(e) => match e {
                    CreateError::Invalid { input, .. } => "\u{201c}"@ + input@
                        + "\u{201d} isn't a valid profile name"@,
                    CreateError::Exists(n) => "A profile named \u{201c}"@ + n@
                        + "\u{201d} already exists"@,
                    CreateError::Io(e) => "Could not create the profile: "@ + e@,
                },
                AdoptError::Move(e) => "Could not move the default Signal: "@ + e@,
                AdoptError::Launcher { name, source } => "Moved to ~/Signal/"@ + name@
                    + ", but its app menu entry could not be written ("@ + source@ + "). Use Repair."@,
            },
    {
        match self {
            AdoptError::NoDefault => "The default Signal has no data to move".to_owned(),
            AdoptError::Running => "Quit the default Signal first. Closing its window can leave it running in the tray.".to_owned(),
            AdoptError::Name(e) => e.message(),
            AdoptError::Move(e) => {
                let mut m = "Could not move the default Signal: ".to_owned();
                push_str(&mut m, e.as_str());
                m
            },
            AdoptError::Launcher { name, source } => {
                let mut m = "Moved to ~/Signal/".to_owned();
                push_str(&mut m, name.as_str());
                push_str(&mut m, ", but its app menu entry could not be written (");
                push_str(&mut m, source.as_str());
                push_str(&mut m, "). Use Repair.");
                m
            },
        }
    }
}

/// `<str as Debug>::fmt`: a text as `{:?}` prints it, in double quotes with
/// special characters escaped (by Rust's rules and Unicode's tables).
pub uninterp spec fn debug_text(s: Seq<char>) -> Seq<char>;

/// Formats a text with `{:?}`. The contract names the result; it states
/// nothing of the escaping rules.
#[verifier::external_body]
fn debug_quoted(s: &str) -> (r: String)
    ensures
        r@ == debug_text(s@),
{
    format!("{s:?}")
}

impl LaunchError {
    pub fn message(&self) -> (r: String)
        ensures
            r@ == match self {
                LaunchError::NotFound(n) => "no profile named "@ + debug_text(n@),
                LaunchError::Locked => "the default Signal is locked; unlock it first"@,
                LaunchError::NotALink(l) => "not a Signal link: "@ + l@,
                LaunchError::Failed(e) => e@,
            },
    {
        match self {
            LaunchError::NotFound(n) => {
                let mut m = "no profile named ".to_owned();
                let q = debug_quoted(n.as_str());
                push_str(&mut m, q.as_str());
                m
            },
            LaunchError::Locked => "the default Signal is locked; unlock it first".to_owned(),
            LaunchError::NotALink(l) => {
                let mut m = "not a Signal link: ".to_owned();
                push_str(&mut m, l.as_str());
                m
            },
            LaunchError::Failed(e) => e.clone(),
        }
    }
}

/// What came of making a new profile's folder.
#[derive(Clone, Debug, PartialEq)]
pub enum FolderOutcome {
    Made,
    /// Something of that name is already there.
    AlreadyExists,
    /// Making it failed (the reason).
    Failed(String),
}

/// Creating goes on to write the launcher once the folder was made; a
/// folder of that name already there means the profile exists; any other
/// failure is reported with its reason.
pub fn folder_made(name: &str, made: FolderOutcome) -> (r: Result<(), CreateError>)
    ensures
        match made {
            FolderOutcome::Made => r is Ok,
            FolderOutcome::AlreadyExists => r matches Err(CreateError::Exists(n)) && n@ == name@,
            FolderOutcome::Failed(e) => r matches Err(CreateError::Io(m)) && m@ == e@,
        },
{
    match made {
        FolderOutcome::Made => Ok(()),
        FolderOutcome::AlreadyExists => Err(CreateError::Exists(name.to_owned())),
        FolderOutcome::Failed(e) => Err(CreateError::Io(e)),
    }
}

/// Once the launcher was written (or not): the profile's name, or the
/// failure together with the order to remove the new folder again; it is
/// new and empty, so removing it loses nothing and the user can simply try
/// again.
pub fn launcher_written(name: &str, written: Result<(), String>) -> (r: (bool, Result<
    String,
    CreateError,
>))
    ensures
        match written {
            Ok(()) => !r.0 && (r.1 matches Ok(n) && n@ == name@),
            Err(e) => r.0 && (r.1 matches Err(CreateError::Io(m)) && m@ == e@),
        },
{
    match written {
        Ok(()) => (false, Ok(name.to_owned())),
        Err(e) => (true, Err(CreateError::Io(e))),
    }
}

/// What deleting does after the Trash answered for the path at `i` of
/// the plan: go on with the next path, finish, or stop with an error.
#[derive(Clone, Debug, PartialEq)]
pub enum DeleteStep {
    Next(usize),
    Done,
    Stop(DeleteError),
}

/// After the Trash's answer `result` for `plan[i]`: a refusal stops the
/// deletion with that reason; otherwise it goes on with `plan[i + 1]`, or is
/// done after the last path.
pub fn delete_step(plan: &[String], i: usize, result: Result<(), String>, name: &str) -> (r:
    DeleteStep)
    requires
        i < plan@.len(),
    ensures
        match result {
            Err(reason) => r matches DeleteStep::Stop(DeleteError::Trash { name: n, reason: why })
                && n@ == name@ && why@ == reason@,
            Ok(()) => if i + 1 < plan@.len() {
                r == DeleteStep::Next((i + 1) as usize)
            } else {
                r == DeleteStep::Done
            },
        },
{
    match result {
        Err(reason) => DeleteStep::Stop(DeleteError::Trash { name: name.to_owned(), reason }),
        Ok(()) => if i < plan.len() - 1 {
            DeleteStep::Next(i + 1)
        } else {
            DeleteStep::Done
        },
    }
}

/// What the launcher is asked to start: a profile's Signal, or the default
/// Signal, with the link it gets, if any.
#[derive(Clone, Debug, PartialEq)]
pub enum LaunchRequest {
    Profile { name: String, link: Option<String> },
    Default { link: Option<String> },
}

/// A link handed over reads as the one asked for.
pub open spec fn same_link(l: Option<String>, link: Option<Seq<char>>) -> bool {
    match (l, link) {
        (Some(a), Some(b)) => a@ == b,
        (None, None) => true,
        _ => false,
    }
}

/// A link as text, if there is one.
pub open spec fn link_of(link: Option<&str>) -> Option<Seq<char>> {
    match link {
        Some(l) => Some(l@),
        None => None,
    }
}

/// What the launcher may be handed: a valid profile name and Signal links.
pub open spec fn request_ok(req: LaunchRequest) -> bool {
    match req {
        LaunchRequest::Profile { name, link } => valid_name(name@) && (link matches Some(l)
            ==> signal_link(l@)),
        LaunchRequest::Default { link } => link matches Some(l) ==> signal_link(l@),
    }
}

/// Starting a profile: refused when there is no such profile, else the
/// profile by its name with the link.
pub open spec fn profile_request_of(
    name: Seq<char>,
    link: Option<Seq<char>>,
    dir_exists: bool,
    r: Result<LaunchRequest, LaunchError>,
) -> bool {
    if !valid_name(name) || !dir_exists {
        r matches Err(LaunchError::NotFound(n)) && n@ == name
    } else {
        r matches Ok(LaunchRequest::Profile { name: n, link: l }) && n@ == name && same_link(l, link)
    }
}

/// Starting the default Signal: refused while its entry is hidden, else the
/// default with the link.
pub open spec fn default_request_of(
    link: Option<Seq<char>>,
    override_text: Option<Seq<char>>,
    r: Result<LaunchRequest, LaunchError>,
) -> bool {
    if override_text matches Some(t) && crate::lock::hides(t) {
        r == Err::<LaunchRequest, LaunchError>(LaunchError::Locked)
    } else {
        r matches Ok(LaunchRequest::Default { link: l }) && same_link(l, link)
    }
}

/// Handing a link to a profile by its key: refused for what is no Signal
/// link; the default Signal for its own name; else the named profile.
pub open spec fn link_request_of(
    name: Seq<char>,
    link: Seq<char>,
    dir_exists: bool,
    override_text: Option<Seq<char>>,
    r: Result<LaunchRequest, LaunchError>,
) -> bool {
    if !signal_link(link) {
        r matches Err(LaunchError::NotALink(l)) && l@ == link
    } else if name == DEFAULT_NAME@ {
        default_request_of(Some(link), override_text, r)
    } else {
        profile_request_of(name, Some(link), dir_exists, r)
    }
}

/// Two errors that read the same.
pub open spec fn same_error(a: LaunchError, b: LaunchError) -> bool {
    match (a, b) {
        (LaunchError::NotFound(x), LaunchError::NotFound(y)) => x@ == y@,
        (LaunchError::Locked, LaunchError::Locked) => true,
        (LaunchError::NotALink(x), LaunchError::NotALink(y)) => x@ == y@,
        (LaunchError::Failed(x), LaunchError::Failed(y)) => x@ == y@,
        _ => false,
    }
}

/// A link's text, if there is one.
pub open spec fn link_view(link: Option<String>) -> Option<Seq<char>> {
    match link {
        Some(l) => Some(l@),
        None => None,
    }
}

/// What the launcher is asked to start for an accepted request.
pub open spec fn start_of(q: LaunchRequest) -> Start {
    match q {
        LaunchRequest::Profile { name, link } => Start::Profile(name@, link_view(link)),
        LaunchRequest::Default { link } => Start::Default(link_view(link)),
    }
}

/// The launcher's answer as the store gives it: started, or its failure.
pub open spec fn answered(a: Result<(), Seq<char>>, r: Result<(), LaunchError>) -> bool {
    match a {
        Ok(()) => r is Ok,
        Err(m) => r matches Err(LaunchError::Failed(f)) && f@ == m,
    }
}

/// A request handed over, with `before` and `after` what the launcher was
/// asked before and after: a refusal is the answer and asks nothing; an
/// accepted request is asked once, exactly as built, and the launcher's
/// answer is the answer.
pub open spec fn handed_over(
    req: Result<LaunchRequest, LaunchError>,
    before: Seq<(Start, Result<(), Seq<char>>)>,
    after: Seq<(Start, Result<(), Seq<char>>)>,
    r: Result<(), LaunchError>,
) -> bool {
    match req {
        Err(e) => after == before && (r matches Err(x) && same_error(x, e)),
        Ok(q) => after.len() == before.len() + 1 && after == before.push(
            (start_of(q), after.last().1),
        ) && answered(after.last().1, r),
    }
}

fn borrow_link(link: &Option<String>) -> (r: Option<&str>)
    ensures
        same_link(*link, link_of(r)),
        link_of(r) == link_view(*link),
{
    match link {
        Some(l) => Some(l.as_str()),
        None => None,
    }
}

fn copy_link(link: Option<&str>) -> (r: Option<String>)
    ensures
        same_link(r, link_of(link)),
{
    match link {
        Some(l) => Some(l.to_owned()),
        None => None,
    }
}

/// What starting a profile hands to the launcher, or why nothing is.
pub fn profile_request(name: &str, link: Option<&str>, dir_exists: bool) -> (r: Result<
    LaunchRequest,
    LaunchError,
>)
    requires
        link matches Some(l) ==> signal_link(l@),
    ensures
        profile_request_of(name@, link_of(link), dir_exists, r),
        r matches Ok(req) ==> request_ok(req),
{
    if !is_valid(name) || !dir_exists {
        return Err(LaunchError::NotFound(name.to_owned()));
    }
    Ok(LaunchRequest::Profile { name: name.to_owned(), link: copy_link(link) })
}

/// What starting the default Signal hands to the launcher, or why nothing
/// is (`override_text` is the text of the snap entry's override, if any).
pub fn default_request(link: Option<&str>, override_text: Option<&str>) -> (r: Result<
    LaunchRequest,
    LaunchError,
>)
    requires
        link matches Some(l) ==> signal_link(l@),
    ensures
        default_request_of(link_of(link), text_of(override_text), r),
        r matches Ok(req) ==> request_ok(req),
{
    if is_locked(override_text) {
        return Err(LaunchError::Locked);
    }
    Ok(LaunchRequest::Default { link: copy_link(link) })
}

/// What handing a link to a profile (by its key) hands to the launcher, or
/// why nothing is.
pub fn link_request(name: &str, link: &str, dir_exists: bool, override_text: Option<&str>) -> (r:
    Result<LaunchRequest, LaunchError>)
    ensures
        link_request_of(name@, link@, dir_exists, text_of(override_text), r),
        r matches Ok(req) ==> request_ok(req),
{
    if !is_signal_link(link) {
        return Err(LaunchError::NotALink(link.to_owned()));
    }
    if str_eq(name, DEFAULT_NAME) {
        default_request(Some(link), override_text)
    } else {
        profile_request(name, Some(link), dir_exists)
    }
}

pub struct Store {
    pub paths: Paths,
    trash: AskedTrash,
    launcher: AskedLauncher,
}

impl Store {
    /// The locations this store works in.
    pub closed spec fn locations(self) -> Paths {
        self.paths
    }

    /// What its Trash has been asked so far, with the answers.
    pub closed spec fn trash_log(self) -> Seq<(Seq<char>, Result<(), Seq<char>>)> {
        self.trash.asked()
    }

    /// What its launcher has been asked to start so far, with the answers.
    pub closed spec fn launch_log(self) -> Seq<(Start, Result<(), Seq<char>>)> {
        self.launcher.started()
    }

    pub fn new(paths: Paths, trash: Box<dyn Trash>, launcher: Box<dyn Launch>) -> (s: Self)
        ensures
            s.locations() == paths,
            s.trash_log() == Seq::<(Seq<char>, Result<(), Seq<char>>)>::empty(),
            s.launch_log() == Seq::<(Start, Result<(), Seq<char>>)>::empty(),
    {
        Self { paths, trash: AskedTrash::new(trash), launcher: AskedLauncher::new(launcher) }
    }

    /// The paths this store works in.
    pub fn paths(&self) -> (r: &Paths)
        ensures
            *r == self.locations(),
    {
        &self.paths
    }

    /// The profiles, from what was found on disk (see `profiles::load_all`).
    pub fn load(
        &self,
        default: Option<DefaultData>,
        folders: &[Folder],
        running: &Running,
    ) -> (r: Vec<Profile>)
        ensures
            r@.len() == (if default is Some { 1int } else { 0int }) + folders@.len(),
            default matches Some(d) ==> crate::profiles::is_default_profile(
                self.locations(),
                d,
                *running,
                r@[0],
            ),
            forall|k: int|
                0 <= k < folders@.len() ==> crate::profiles::is_folder_profile(
                    self.locations(),
                    #[trigger] folders@[k],
                    *running,
                    r@[k + (if default is Some { 1int } else { 0int })],
                ),
    {
        load_all(&self.paths, default, folders, running)
    }

    /// The trimmed name if it's valid and not taken (ignoring case) by one
    /// of the profile `names`.
    pub fn new_name(&self, input: &str, names: &[String]) -> (r: Result<String, CreateError>)
        ensures
            new_name_outcome(input@, texts(names@), r),
    {
        let name = string_of(trim_chars(&chars_of(input)).as_slice());
        if !is_valid(name.as_str()) {
            let fix = suggest(name.as_str());
            proof {
                crate::text::lemma_trim_ends(input@);
                lemma_trim_idempotent(input@);
            }
            return Err(CreateError::Invalid { input: name, suggestion: fix });
        }
        match existing_ignoring_case(names, name.as_str()) {
            Some(existing) => {
                proof {
                    let k = choose|k: int|
                        0 <= k < names@.len() && names@[k]@ == existing@ && eq_ignore_ascii_case(
                            existing@,
                            name@,
                        ) && forall|j: int|
                            0 <= j < k ==> !eq_ignore_ascii_case(#[trigger] names@[j]@, name@);
                    assert(texts(names@)[k] == existing@);
                    assert(eq_ignore_ascii_case(texts(names@)[k], name@));
                    assert forall|j: int| 0 <= j < k implies !eq_ignore_ascii_case(
                        #[trigger] texts(names@)[j],
                        name@,
                    ) by {
                        assert(texts(names@)[j] == names@[j]@);
                    }
                }
                Err(CreateError::Exists(existing))
            },
            None => {
                proof {
                    assert forall|k: int| 0 <= k < texts(names@).len() implies !eq_ignore_ascii_case(
                        #[trigger] texts(names@)[k],
                        name@,
                    ) by {
                        assert(texts(names@)[k] == names@[k]@);
                    }
                }
                Ok(name)
            },
        }
    }

    /// What to move to the Trash to delete a profile: its launchers first,
    /// then its data, so a failure can leave data without a launcher (fixable
    /// with Repair) but never a launcher that would start Signal on a missing
    /// directory.
    pub fn delete_plan(
        &self,
        name: &str,
        dir_exists: bool,
        running: &Running,
        launchers: Result<Vec<String>, String>,
    ) -> (r: Result<Vec<String>, DeleteError>)
        ensures
            delete_plan_outcome(self.locations(), name@, dir_exists, *running, launchers, r),
    {
        let dir = self.paths.profile_dir(name);
        if !is_valid(name) || !dir_exists {
            return Err(DeleteError::NotFound(name.to_owned()));
        }
        if running.contains(dir.as_str()) {
            return Err(DeleteError::Running(name.to_owned()));
        }
        match launchers {
            Err(reason) => Err(DeleteError::Trash { name: name.to_owned(), reason }),
            Ok(found) => {
                let mut list = found;
                let ghost before = list@;
                list.push(dir);
                assert(texts(list@) =~= texts(before).push(list@.last()@));
                Ok(list)
            },
        }
    }

    /// Trashes launchers first, then data (see `delete_plan`), stopping at
    /// the first path the Trash refuses. `dir_exists` says whether the
    /// profile's folder is a directory, `running` what runs, and `launchers`
    /// the profile's launchers or why they could not be listed.
    pub fn delete(
        &mut self,
        name: &str,
        dir_exists: bool,
        running: &Running,
        launchers: Result<Vec<String>, String>,
    ) -> (r: Result<(), DeleteError>)
        ensures
            final(self).locations() == old(self).locations(),
            final(self).launch_log() == old(self).launch_log(),
            final(self).trash_log().len() >= old(self).trash_log().len(),
            final(self).trash_log().take(old(self).trash_log().len() as int) == old(
                self,
            ).trash_log(),
            delete_outcome(
                old(self).locations(),
                name@,
                dir_exists,
                *running,
                launchers,
                final(self).trash_log().skip(old(self).trash_log().len() as int),
                r,
            ),
    {
        let ghost before = self.trash_log();
        let ghost found = launchers;
        let plan = self.delete_plan(name, dir_exists, running, launchers);
        match plan {
            Err(e) => {
                assert(self.trash_log().skip(before.len() as int) =~= Seq::<
                    (Seq<char>, Result<(), Seq<char>>),
                >::empty());
                assert(self.trash_log().take(before.len() as int) =~= before);
                Err(e)
            },
            Ok(list) => {
                let ghost plan_texts = texts(list@);
                // The plan ends with the profile's folder, so it is never empty.
                assert(list@.len() >= 1) by {
                    assert(texts(list@).len() == list@.len());
                }
                let mut i: usize = 0;
                assert(self.trash_log().skip(before.len() as int) =~= Seq::<
                    (Seq<char>, Result<(), Seq<char>>),
                >::empty());
                loop
                    invariant
                        i < list@.len(),
                        plan_texts == texts(list@),
                        self.locations() == old(self).locations(),
                        self.launch_log() == old(self).launch_log(),
                        before == old(self).trash_log(),
                        found == launchers,
                        self.trash_log().len() == before.len() + i,
                        self.trash_log().take(before.len() as int) == before,
                        forall|k: int|
                            0 <= k < i ==> (#[trigger] self.trash_log().skip(
                                before.len() as int,
                            )[k]).0 == plan_texts[k] && self.trash_log().skip(
                                before.len() as int,
                            )[k].1 is Ok,
                        delete_plan_outcome(
                            old(self).locations(),
                            name@,
                            dir_exists,
                            *running,
                            found,
                            Ok::<Vec<String>, DeleteError>(list),
                        ),
                    decreases list.len() - i,
                {
                    let ghost log0 = self.trash_log();
                    let answer = self.trash.ask(list[i].as_str());
                    proof {
                        assert(self.trash_log() == log0.push((list@[i as int]@, answer_of(answer))));
                        assert(self.trash_log().take(before.len() as int) =~= before);
                        assert(plan_texts[i as int] == list@[i as int]@);
                        let calls0 = log0.skip(before.len() as int);
                        let calls = self.trash_log().skip(before.len() as int);
                        assert(calls =~= calls0.push((list@[i as int]@, answer_of(answer))));
                        assert forall|k: int| 0 <= k < i + 1 implies (#[trigger] calls[k]).0
                            == plan_texts[k] && (k < i ==> calls[k].1 is Ok) by {
                            if k < i {
                                assert(calls[k] == calls0[k]);
                            }
                        }
                    }
                    match delete_step(list.as_slice(), i, answer, name) {
                        DeleteStep::Next(j) => {
                            i = j;
                        },
                        DeleteStep::Done => {
                            let ghost calls = self.trash_log().skip(before.len() as int);
                            assert(calls.last() == calls[i as int]);
                            return Ok(());
                        },
                        DeleteStep::Stop(e) => {
                            let ghost calls = self.trash_log().skip(before.len() as int);
                            assert(calls.last() == calls[i as int]);
                            return Err(e);
                        },
                    }
                }
            },
        }
    }

    /// Which launchers to rewrite in the current format and which to create,
    /// from what was found for each profile (in the order of `profiles::
    /// list_names`). Hand-made launchers are left alone.
    pub fn repair(&self, scans: &[RepairScan]) -> (r: RepairPlan)
        ensures
            texts(r.write@) == names_written(scans@),
            texts(r.report.updated@) == names_updated(scans@),
            texts(r.report.created@) == names_created(scans@),
            pair_texts(r.report.skipped@) == names_skipped(scans@),
    {
        let mut write: Vec<String> = Vec::new();
        let mut updated: Vec<String> = Vec::new();
        let mut created: Vec<String> = Vec::new();
        let mut skipped: Vec<(String, String)> = Vec::new();
        let mut i: usize = 0;
        while i < scans.len()
            invariant
                i <= scans@.len(),
                texts(write@) == names_written(scans@.take(i as int)),
                texts(updated@) == names_updated(scans@.take(i as int)),
                texts(created@) == names_created(scans@.take(i as int)),
                pair_texts(skipped@) == names_skipped(scans@.take(i as int)),
            decreases scans.len() - i,
        {
            let s = &scans[i];
            assert(scans@.take(i + 1).drop_last() =~= scans@.take(i as int));
            let ghost w0 = write@;
            let ghost u0 = updated@;
            let ghost c0 = created@;
            let ghost k0 = skipped@;
            if s.own_exists {
                write.push(s.name.clone());
                updated.push(s.name.clone());
                assert(texts(write@) =~= texts(w0).push(s.name@));
                assert(texts(updated@) =~= texts(u0).push(s.name@));
            } else if s.found.len() > 0 {
                let file = file_name(s.found[0].as_str());
                skipped.push((s.name.clone(), file));
                assert(pair_texts(skipped@) =~= pair_texts(k0).push(
                    (s.name@, file_name_of(s.found@[0]@)),
                ));
            } else {
                write.push(s.name.clone());
                created.push(s.name.clone());
                assert(texts(write@) =~= texts(w0).push(s.name@));
                assert(texts(created@) =~= texts(c0).push(s.name@));
            }
            i = i + 1;
        }
        assert(scans@.take(scans@.len() as int) =~= scans@);
        RepairPlan { write, report: RepairReport { updated, created, skipped } }
    }

    /// Starts a profile's Signal (see `open_link`): the request of
    /// `profile_request`, handed to the launcher as it is.
    pub fn launch(&mut self, name: &str, dir_exists: bool) -> (r: Result<(), LaunchError>)
        ensures
            final(self).locations() == old(self).locations(),
            final(self).trash_log() == old(self).trash_log(),
            forall|q: Result<LaunchRequest, LaunchError>|
                #[trigger] profile_request_of(name@, None, dir_exists, q) ==> handed_over(
                    q,
                    old(self).launch_log(),
                    final(self).launch_log(),
                    r,
                ),
    {
        let req = profile_request(name, None, dir_exists);
        self.hand_over(req)
    }

    /// Starts (or brings forward) the default Signal, unless it's locked:
    /// the request of `default_request`, handed to the launcher as it is.
    pub fn launch_default(&mut self, override_text: Option<&str>) -> (r: Result<(), LaunchError>)
        ensures
            final(self).locations() == old(self).locations(),
            final(self).trash_log() == old(self).trash_log(),
            forall|q: Result<LaunchRequest, LaunchError>|
                #[trigger] default_request_of(None, text_of(override_text), q) ==> handed_over(
                    q,
                    old(self).launch_log(),
                    final(self).launch_log(),
                    r,
                ),
    {
        let req = default_request(None, override_text);
        self.hand_over(req)
    }

    /// Hands a Signal link (`sgnl://`, `signalcaptcha://`) to a profile, by
    /// its key; a running instance receives it, otherwise Signal starts with
    /// it: the request of `link_request`, handed to the launcher as it is.
    /// `dir_exists` says whether the profile's folder is a directory;
    /// `override_text` is the text of the snap entry's override, if any.
    pub fn open_link(
        &mut self,
        name: &str,
        link: &str,
        dir_exists: bool,
        override_text: Option<&str>,
    ) -> (r: Result<(), LaunchError>)
        ensures
            final(self).locations() == old(self).locations(),
            final(self).trash_log() == old(self).trash_log(),
            forall|q: Result<LaunchRequest, LaunchError>|
                #[trigger] link_request_of(name@, link@, dir_exists, text_of(override_text), q)
                    ==> handed_over(q, old(self).launch_log(), final(self).launch_log(), r),
    {
        let req = link_request(name, link, dir_exists, override_text);
        self.hand_over(req)
    }

    /// A refused request is answered with its error; an accepted one goes to
    /// the launcher, whose failure comes back as `Failed`.
    fn hand_over(&mut self, req: Result<LaunchRequest, LaunchError>) -> (r: Result<
        (),
        LaunchError,
    >)
        requires
            req matches Ok(q) ==> request_ok(q),
        ensures
            final(self).locations() == old(self).locations(),
            final(self).trash_log() == old(self).trash_log(),
            handed_over(req, old(self).launch_log(), final(self).launch_log(), r),
    {
        match req {
            Err(e) => Err(e),
            Ok(LaunchRequest::Profile { name, link }) => {
                match self.launcher.launch(&self.paths, name.as_str(), borrow_link(&link)) {
                    Ok(()) => Ok(()),
                    Err(e) => Err(LaunchError::Failed(e)),
                }
            },
            Ok(LaunchRequest::Default { link }) => {
                match self.launcher.launch_default(&self.paths, borrow_link(&link)) {
                    Ok(()) => Ok(()),
                    Err(e) => Err(LaunchError::Failed(e)),
                }
            },
        }
    }

    /// Hides the snap's Signal entry so the default isn't opened by accident
    /// (see `lock::lock`; `current` is the override's text, if any).
    pub fn lock_default(&self, current: Option<&str>) -> (r: Result<OverrideChange, LockError>)
        ensures
            lock_outcome(self.locations(), text_of(current), r),
    {
        lock(&self.paths, current)
    }

    /// Removes our override (see `lock::unlock`).
    pub fn unlock_default(&self, current: Option<&str>) -> (r: Result<OverrideChange, LockError>)
        ensures
            unlock_outcome(self.locations(), text_of(current), r),
    {
        unlock(&self.paths, current)
    }

    /// The name to move the default Signal's data to (`~/Signal/<name>`), or
    /// why not: `default_exists` says whether its data folder is a directory,
    /// `default_running` whether it runs, and `entries` are the entries of
    /// `~/Signal`. The caller moves the folder with one rename and writes the
    /// launcher.
    pub fn adopt_default(
        &self,
        input: &str,
        default_exists: bool,
        default_running: bool,
        entries: &[Entry],
    ) -> (r: Result<String, AdoptError>)
        ensures
            adopt_outcome(input@, default_exists, default_running, entries@, r),
            !default_exists ==> r == Err::<String, AdoptError>(AdoptError::NoDefault),
            default_exists && default_running ==> r == Err::<String, AdoptError>(
                AdoptError::Running,
            ),
            default_exists && !default_running && !valid_name(trim(input@)) ==> r matches Err(
                AdoptError::Name(CreateError::Invalid { .. }),
            ),
            default_exists && !default_running && valid_name(trim(input@)) && (exists|k: int|
                0 <= k < entries@.len() && (eq_ignore_ascii_case(
                    #[trigger] entries@[k].name@,
                    trim(input@),
                ) && entries@[k].is_dir || entries@[k].name@ == trim(input@))) ==> r matches Err(
                AdoptError::Name(CreateError::Exists(_)),
            ),
            default_exists && !default_running && valid_name(trim(input@)) && !(exists|k: int|
                0 <= k < entries@.len() && (eq_ignore_ascii_case(
                    #[trigger] entries@[k].name@,
                    trim(input@),
                ) && entries@[k].is_dir || entries@[k].name@ == trim(input@))) ==> (r matches Ok(
                n) && n@ == trim(input@)),
            r matches Ok(n) ==> (default_exists && !default_running && n@ == trim(input@)
                && valid_name(n@) && forall|k: int|
                0 <= k < entries@.len() ==> entries@[k].name@ != n@ && !(#[trigger] entries@[k].is_dir
                && eq_ignore_ascii_case(entries@[k].name@, n@))),
    {
        if !default_exists {
            return Err(AdoptError::NoDefault);
        }
        if default_running {
            return Err(AdoptError::Running);
        }
        let names = list_names(entries);
        let name = match self.new_name(input, names.as_slice()) {
            Ok(n) => n,
            Err(e) => {
                proof {
                    if valid_name(trim(input@)) {
                        lemma_taken_names(entries@, texts(names@), trim(input@));
                    }
                }
                return Err(AdoptError::Name(e));
            },
        };
        proof {
            lemma_taken_names(entries@, texts(names@), trim(input@));
        }
        let mut k: usize = 0;
        while k < entries.len()
            invariant
                k <= entries@.len(),
                forall|j: int| 0 <= j < k ==> entries@[j].name@ != name@,
                default_exists && !default_running,
                name@ == trim(input@),
                valid_name(name@),
                forall|j: int|
                    0 <= j < entries@.len() ==> !(#[trigger] entries@[j].is_dir
                        && eq_ignore_ascii_case(entries@[j].name@, name@)),
                !(exists|j: int|
                    0 <= j < sort_by_key(profile_folders(entries@)).len() && eq_ignore_ascii_case(
                        #[trigger] sort_by_key(profile_folders(entries@))[j],
                        name@,
                    )),
            decreases entries.len() - k,
        {
            if str_eq(entries[k].name.as_str(), name.as_str()) {
                assert(entries@[k as int].name@ == trim(input@));
                return Err(AdoptError::Name(CreateError::Exists(name)));
            }
            k = k + 1;
        }
        Ok(name)
    }
}


/// Once the default Signal is locked it is not started, with or without a
/// link, and the launcher is not asked; once unlocked it is started again.
pub proof fn a_locked_default_is_not_started(
    paths: Paths,
    current: Option<Seq<char>>,
    lock_change: Result<OverrideChange, LockError>,
    unlock_change: Result<OverrideChange, LockError>,
    link: Option<Seq<char>>,
    q: Result<LaunchRequest, LaunchError>,
    q2: Result<LaunchRequest, LaunchError>,
    before: Seq<(Start, Result<(), Seq<char>>)>,
    after: Seq<(Start, Result<(), Seq<char>>)>,
    r: Result<(), LaunchError>,
)
    requires
        lock_outcome(paths, current, lock_change),
        lock_change is Ok,
        !(current matches Some(t) && crate::lock::ours(t) && !crate::lock::hides(t)),
        default_request_of(link, after_change(current, lock_change->Ok_0), q),
        handed_over(q, before, after, r),
        unlock_outcome(paths, after_change(current, lock_change->Ok_0), unlock_change),
        unlock_change is Ok,
        default_request_of(
            link,
            after_change(after_change(current, lock_change->Ok_0), unlock_change->Ok_0),
            q2,
        ),
    ensures
        q == Err::<LaunchRequest, LaunchError>(LaunchError::Locked),
        r == Err::<(), LaunchError>(LaunchError::Locked),
        after == before,
        q2 matches Ok(LaunchRequest::Default { link: l }) && same_link(l, link),
{
    crate::lock::locking_leaves_the_entry_hidden(paths, current, lock_change);
    crate::lock::unlocking_leaves_the_entry_shown(
        paths,
        after_change(current, lock_change->Ok_0),
        unlock_change,
    );
}

/// The scan taken again after a repair wrote its launchers: the same
/// profiles, each with its own launcher exactly where the repair wrote one,
/// and the hand-made launchers it left alone still found.
pub open spec fn rescanned(scans: Seq<RepairScan>, again: Seq<RepairScan>) -> bool {
    &&& again.len() == scans.len()
    &&& forall|i: int|
        #![trigger again[i]]
        0 <= i < scans.len() ==> {
            &&& again[i].name@ == scans[i].name@
            &&& again[i].own_exists == gets_written(scans[i])
            &&& !gets_written(scans[i]) ==> again[i].found@ == scans[i].found@
        }
}

/// Repairing twice does what repairing once did: the second run rewrites
/// the same launchers (all of them now this tool's own), creates none, and
/// skips the same hand-made ones.
pub proof fn repairing_twice_changes_nothing(scans: Seq<RepairScan>, again: Seq<RepairScan>)
    requires
        rescanned(scans, again),
    ensures
        names_written(again) == names_written(scans),
        names_updated(again) == names_written(scans),
        names_created(again) == Seq::<Seq<char>>::empty(),
        names_skipped(again) == names_skipped(scans),
    decreases scans.len(),
{
    if scans.len() > 0 {
        let (s0, a0) = (scans.drop_last(), again.drop_last());
        assert forall|i: int| #![trigger a0[i]] 0 <= i < s0.len() implies {
            &&& a0[i].name@ == s0[i].name@
            &&& a0[i].own_exists == gets_written(s0[i])
            &&& !gets_written(s0[i]) ==> a0[i].found@ == s0[i].found@
        } by {
            assert(a0[i] == again[i] && s0[i] == scans[i]);
        }
        repairing_twice_changes_nothing(s0, a0);
        let n = scans.len() - 1;
        assert(again[n] == again.last() && scans[n] == scans.last());
    }
}

/// Repair accounts for every profile exactly once: its launcher is updated,
/// created or, being hand-made, skipped; and it writes exactly the updated
/// and created ones.
pub proof fn repair_accounts_for_every_profile(scans: Seq<RepairScan>)
    ensures
        names_updated(scans).len() + names_created(scans).len() + names_skipped(scans).len()
            == scans.len(),
        names_written(scans).len() == names_updated(scans).len() + names_created(scans).len(),
    decreases scans.len(),
{
    if scans.len() > 0 {
        repair_accounts_for_every_profile(scans.drop_last());
    }
}

/// Repair leaves hand-made launchers alone: a profile found only with
/// launchers that are not this tool's gets nothing written and is reported as
/// skipped, with its first launcher's file name.
pub proof fn repair_leaves_hand_made_launchers_alone(scans: Seq<RepairScan>, i: int)
    requires
        0 <= i < scans.len(),
        !scans[i].own_exists,
        scans[i].found@.len() > 0,
        forall|j: int| 0 <= j < scans.len() && j != i ==> #[trigger] scans[j].name@ != scans[i].name@,
    ensures
        !names_written(scans).contains(scans[i].name@),
        names_skipped(scans).contains((scans[i].name@, file_name_of(scans[i].found@[0]@))),
    decreases scans.len(),
{
    let init = scans.drop_last();
    let name = scans[i].name@;
    lemma_written_from(init);
    if i < scans.len() - 1 {
        assert forall|j: int| 0 <= j < init.len() && j != i implies #[trigger] init[j].name@
            != init[i].name@ by {
            assert(init[j] == scans[j]);
        }
        repair_leaves_hand_made_launchers_alone(init, i);
        assert(scans.last().name@ != name) by {
            assert(scans[scans.len() - 1] == scans.last());
        }
        assert(names_skipped(init).contains((name, file_name_of(scans[i].found@[0]@))));
        let k = choose|k: int| 0 <= k < names_skipped(init).len() && names_skipped(init)[k] == (
            name,
            file_name_of(scans[i].found@[0]@),
        );
        assert(names_skipped(scans)[k] == names_skipped(init)[k]);
    } else {
        assert(scans.last() == scans[i]);
        assert(!names_written(init).contains(name)) by {
            if names_written(init).contains(name) {
                let k = choose|k: int| 0 <= k < names_written(init).len() && names_written(init)[k]
                    == name;
                assert(exists|j: int|
                    0 <= j < init.len() && init[j].name@ == #[trigger] names_written(init)[k]);
                let j = choose|j: int| 0 <= j < init.len() && init[j].name@ == names_written(init)[k];
                assert(scans[j] == init[j]);
                assert(j != i);
                assert(scans[j].name@ != scans[i].name@);
            }
        }
        let l = names_skipped(scans).len() - 1;
        assert(names_skipped(scans)[l] == (name, file_name_of(scans[i].found@[0]@)));
    }
}

/// Every name written by repair is the name of one of the scanned profiles.
proof fn lemma_written_from(scans: Seq<RepairScan>)
    ensures
        forall|k: int|
            0 <= k < names_written(scans).len() ==> exists|j: int|
                0 <= j < scans.len() && scans[j].name@ == #[trigger] names_written(scans)[k],
    decreases scans.len(),
{
    if scans.len() > 0 {
        let init = scans.drop_last();
        lemma_written_from(init);
        assert forall|k: int| 0 <= k < names_written(scans).len() implies exists|j: int|
            0 <= j < scans.len() && scans[j].name@ == #[trigger] names_written(scans)[k] by {
            if k < names_written(init).len() {
                assert(names_written(scans)[k] == names_written(init)[k]);
                let j = choose|j: int|
                    0 <= j < init.len() && init[j].name@ == #[trigger] names_written(init)[k];
                assert(scans[j] == init[j]);
            } else {
                assert(scans[scans.len() - 1] == scans.last());
            }
        }
    }
}

/// The default Signal is never deleted: asking to delete it is answered
/// that there is no such profile, whatever is on disk, and the Trash is
/// asked for nothing.
pub proof fn the_default_is_never_deleted(
    paths: Paths,
    dir_exists: bool,
    running: Running,
    launchers: Result<Vec<String>, String>,
    calls: Seq<(Seq<char>, Result<(), Seq<char>>)>,
    r: Result<(), DeleteError>,
)
    requires
        delete_outcome(paths, DEFAULT_NAME@, dir_exists, running, launchers, calls, r),
    ensures
        r matches Err(DeleteError::NotFound(n)) && n@ == DEFAULT_NAME@,
        calls.len() == 0,
{
    crate::profiles::default_name_is_not_a_profile_name();
}

/// Trimming twice trims nothing more.
proof fn lemma_trim_idempotent(s: Seq<char>)
    ensures
        trim(trim(s)) == trim(s),
{
    crate::text::lemma_trim_ends(s);
    let t = trim(s);
    if t.len() > 0 {
        assert(crate::text::trim_start(t) == t);
        assert(crate::text::trim_end(t) == t);
    } else {
        assert(crate::text::trim_start(t) == t);
    }
}

/// The profile names taken ignoring case are the folders with a valid name.
proof fn lemma_taken_names(entries: Seq<Entry>, names: Seq<Seq<char>>, name: Seq<char>)
    requires
        names.to_multiset() == profile_folders(entries).to_multiset(),
        valid_name(name),
    ensures
        (exists|k: int| 0 <= k < names.len() && eq_ignore_ascii_case(#[trigger] names[k], name))
            <==> (exists|k: int|
            0 <= k < entries.len() && #[trigger] entries[k].is_dir && eq_ignore_ascii_case(
                entries[k].name@,
                name,
            )),
{
    broadcast use vstd::seq_lib::group_to_multiset_ensures;

    lemma_profile_folders_members(entries);
    if exists|k: int| 0 <= k < names.len() && eq_ignore_ascii_case(#[trigger] names[k], name) {
        let k = choose|k: int| 0 <= k < names.len() && eq_ignore_ascii_case(#[trigger] names[k], name);
        assert(names.contains(names[k]));
        assert(names.to_multiset().count(names[k]) > 0);
        assert(profile_folders(entries).contains(names[k]));
        let j = choose|j: int| 0 <= j < profile_folders(entries).len() && profile_folders(entries)[j] == names[k];
        let e = choose|e: int| 0 <= e < entries.len() && entries[e].is_dir && valid_name(entries[e].name@) && entries[e].name@ == profile_folders(entries)[j];
        assert(entries[e].is_dir);
    }
    if exists|k: int|
        0 <= k < entries.len() && #[trigger] entries[k].is_dir && eq_ignore_ascii_case(
            entries[k].name@,
            name,
        ) {
        let e = choose|e: int|
            0 <= e < entries.len() && #[trigger] entries[e].is_dir && eq_ignore_ascii_case(
                entries[e].name@,
                name,
            );
        lemma_same_case_valid(entries[e].name@, name);
        let j = choose|j: int| 0 <= j < profile_folders(entries).len() && profile_folders(entries)[j] == entries[e].name@;
        assert(profile_folders(entries).contains(entries[e].name@));
        assert(names.to_multiset().count(entries[e].name@) > 0);
        assert(names.contains(entries[e].name@));
        let k = choose|k: int| 0 <= k < names.len() && names[k] == entries[e].name@;
        assert(eq_ignore_ascii_case(names[k], name));
    }
}

/// A name equal to a valid name up to ASCII case is valid.
proof fn lemma_same_case_valid(a: Seq<char>, b: Seq<char>)
    requires
        eq_ignore_ascii_case(a, b),
        valid_name(b),
    ensures
        valid_name(a),
{
    assert forall|i: int| 0 <= i < a.len() implies crate::names::is_name_char(#[trigger] a[i]) by {
        assert(crate::text::ascii_lower(a[i]) == crate::text::ascii_lower(b[i]));
        assert(crate::names::is_name_char(b[i]));
    }
    assert(crate::text::ascii_lower(a[0]) == crate::text::ascii_lower(b[0]));
}

/// A name is among the profile folders exactly when some entry is a
/// directory with that valid name.
proof fn lemma_profile_folders_members(entries: Seq<Entry>)
    ensures
        forall|n: Seq<char>|
            #[trigger] profile_folders(entries).contains(n) <==> exists|e: int|
                0 <= e < entries.len() && entries[e].is_dir && valid_name(entries[e].name@)
                    && entries[e].name@ == n,
    decreases entries.len(),
{
    if entries.len() > 0 {
        let init = entries.drop_last();
        lemma_profile_folders_members(init);
        assert forall|n: Seq<char>| #[trigger] profile_folders(entries).contains(n) <==> exists|e: int|
            0 <= e < entries.len() && entries[e].is_dir && valid_name(entries[e].name@)
                && entries[e].name@ == n by {
            if profile_folders(entries).contains(n) {
                let last = entries.last();
                if last.is_dir && valid_name(last.name@) && n == last.name@ {
                    assert(entries[entries.len() - 1] == last);
                } else {
                    assert(profile_folders(init).contains(n));
                    let e = choose|e: int|
                        0 <= e < init.len() && init[e].is_dir && valid_name(init[e].name@)
                            && init[e].name@ == n;
                    assert(entries[e] == init[e]);
                }
            }
            if exists|e: int|
                0 <= e < entries.len() && entries[e].is_dir && valid_name(entries[e].name@)
                    && entries[e].name@ == n {
                let e = choose|e: int|
                    0 <= e < entries.len() && entries[e].is_dir && valid_name(entries[e].name@)
                        && entries[e].name@ == n;
                if e == entries.len() - 1 {
                    assert(profile_folders(entries).last() == n);
                } else {
                    assert(init[e] == entries[e]);
                    assert(profile_folders(init).contains(n));
                    let j = choose|j: int| 0 <= j < profile_folders(init).len() && profile_folders(init)[j] == n;
                    assert(profile_folders(entries)[j] == n);
                }
            }
        }
    }
}

} // verus!
