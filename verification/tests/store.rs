use multisignal::paths::Paths;
use multisignal::procs::Running;
use multisignal::profiles::{Entry, DEFAULT_NAME};
use multisignal::store::{
    default_request, delete_step, folder_made, launcher_written, link_request, profile_request,
    AdoptError, CreateError, DeleteError, DeleteStep, FolderOutcome, Launch, LaunchError,
    LaunchRequest, RepairScan, Store, Trash,
};
use multisignal::ui::create_dialog::{validate, Validation};
use std::cell::RefCell;
use std::rc::Rc;

#[derive(Clone, Default)]
struct Recorder(Rc<RefCell<Vec<String>>>);

impl Trash for Recorder {
    fn trash(&self, path: &str) -> Result<(), String> {
        if path.ends_with("refused.desktop") {
            return Err("read-only".to_string());
        }
        self.0.borrow_mut().push(path.to_string());
        Ok(())
    }
}

impl Launch for Recorder {
    fn launch(&self, _: &Paths, name: &str, link: Option<&str>) -> Result<(), String> {
        let mut entry = name.to_string();
        if let Some(l) = link {
            entry.push(' ');
            entry.push_str(l);
        }
        self.0.borrow_mut().push(entry);
        Ok(())
    }

    fn launch_default(&self, _: &Paths, link: Option<&str>) -> Result<(), String> {
        let mut entry = "(default)".to_string();
        if let Some(l) = link {
            entry.push(' ');
            entry.push_str(l);
        }
        self.0.borrow_mut().push(entry);
        Ok(())
    }
}

struct Failing;

impl Launch for Failing {
    fn launch(&self, _: &Paths, _: &str, _: Option<&str>) -> Result<(), String> {
        Err("setsid exited with 1".to_string())
    }

    fn launch_default(&self, _: &Paths, _: Option<&str>) -> Result<(), String> {
        Err("setsid exited with 1".to_string())
    }
}

struct Fixture {
    store: Store,
    trashed: Recorder,
    launched: Recorder,
}

fn fixture() -> Fixture {
    let trashed = Recorder::default();
    let launched = Recorder::default();
    let store = Store::new(
        Paths::for_home("/h", None),
        Box::new(trashed.clone()),
        Box::new(launched.clone()),
    );
    Fixture { store, trashed, launched }
}

fn nothing_runs() -> Running {
    Running { default: false, data_dirs: Vec::new() }
}

fn names(list: &[&str]) -> Vec<String> {
    list.iter().map(|s| s.to_string()).collect()
}

#[test]
fn create_trims_and_writes_dir_and_launcher() {
    let f = fixture();
    assert_eq!(f.store.new_name("  Work  ", &[]), Ok("Work".to_string()));
    assert!(multisignal::launcher::render(f.store.paths(), "Work").is_ok());
    assert!(f.launched.0.borrow().is_empty(), "creating doesn't launch");
}

#[test]
fn create_rejects_bad_names() {
    let f = fixture();
    for bad in ["../evil", "My Profile", "a|b", ".", "", "   "] {
        assert!(
            matches!(f.store.new_name(bad, &[]), Err(CreateError::Invalid { .. })),
            "{bad:?}"
        );
    }
    match f.store.new_name("  a|b ", &[]) {
        Err(CreateError::Invalid { input, .. }) => assert_eq!(input, "a|b"),
        other => panic!("{other:?}"),
    }
}

#[test]
fn create_suggests_a_fixed_name() {
    let f = fixture();
    match f.store.new_name("My Work", &[]) {
        Err(CreateError::Invalid { suggestion, .. }) => {
            assert_eq!(suggestion.as_deref(), Some("My-Work"))
        }
        other => panic!("{other:?}"),
    }
}

#[test]
fn create_rejects_duplicates_ignoring_case() {
    let f = fixture();
    let taken = names(&["Work"]);
    assert!(matches!(f.store.new_name("Work", &taken), Err(CreateError::Exists(n)) if n == "Work"));
    assert!(matches!(f.store.new_name("work", &taken), Err(CreateError::Exists(n)) if n == "Work"));
    assert_eq!(f.store.new_name("Travel", &taken), Ok("Travel".to_string()));
}

#[test]
fn delete_trashes_launchers_first_then_the_data() {
    let mut f = fixture();
    let p = f.store.paths().clone();
    let launchers = vec![p.own_launcher("A"), format!("{}/custom-a.desktop", p.applications)];
    assert_eq!(
        f.store.delete_plan("A", true, &nothing_runs(), Ok(launchers.clone())),
        Ok(vec![launchers[0].clone(), launchers[1].clone(), "/h/Signal/A".to_string()])
    );
    assert_eq!(f.store.delete("A", true, &nothing_runs(), Ok(launchers.clone())), Ok(()));
    assert_eq!(
        *f.trashed.0.borrow(),
        [launchers[0].clone(), launchers[1].clone(), "/h/Signal/A".to_string()]
    );
}

#[test]
fn delete_never_touches_the_signal_base_dir() {
    let mut f = fixture();
    for bad in ["", ".", "..", "../B"] {
        assert!(
            matches!(
                f.store.delete(bad, true, &nothing_runs(), Ok(Vec::new())),
                Err(DeleteError::NotFound(_))
            ),
            "{bad:?}"
        );
    }
    assert!(f.trashed.0.borrow().is_empty());
}

#[test]
fn delete_of_a_missing_profile_is_not_found() {
    let mut f = fixture();
    assert_eq!(
        f.store.delete("Gone", false, &nothing_runs(), Ok(Vec::new())),
        Err(DeleteError::NotFound("Gone".to_string()))
    );
}

#[test]
fn delete_refuses_running_profile() {
    let mut f = fixture();
    let running = Running { default: false, data_dirs: vec![f.store.paths().profile_dir("A")] };
    let launchers = vec![f.store.paths().own_launcher("A")];
    assert!(matches!(
        f.store.delete("A", true, &running, Ok(launchers)),
        Err(DeleteError::Running(_))
    ));
    assert!(f.trashed.0.borrow().is_empty());
}

#[test]
fn delete_stops_at_the_first_path_the_trash_refuses() {
    let mut f = fixture();
    let launchers = vec!["/h/apps/refused.desktop".to_string(), "/h/apps/b.desktop".to_string()];
    assert_eq!(
        f.store.delete("A", true, &nothing_runs(), Ok(launchers)),
        Err(DeleteError::Trash { name: "A".to_string(), reason: "read-only".to_string() })
    );
    assert!(f.trashed.0.borrow().is_empty());
    assert_eq!(
        f.store.delete("A", true, &nothing_runs(), Err("unreadable".to_string())),
        Err(DeleteError::Trash { name: "A".to_string(), reason: "unreadable".to_string() })
    );
}

#[test]
fn error_messages_read_naturally() {
    assert_eq!(
        DeleteError::Running("Busy".to_string()).message(),
        "Quit Signal (Busy) first. Closing its window can leave it running in the tray."
    );
    assert_eq!(
        DeleteError::NotFound("X".to_string()).message(),
        "There is no profile named \u{201c}X\u{201d}"
    );
    assert_eq!(
        CreateError::Exists("Work".to_string()).message(),
        "A profile named \u{201c}Work\u{201d} already exists"
    );
    assert_eq!(
        CreateError::Invalid { input: "a b".to_string(), suggestion: None }.message(),
        "\u{201c}a b\u{201d} isn't a valid profile name"
    );
}

#[test]
fn store_repair_updates_ours_creates_missing_and_skips_hand_made() {
    let f = fixture();
    let scans = [
        RepairScan { name: "Damon".to_string(), own_exists: false, found: vec!["/h/apps/signal-desktop-damon.desktop".to_string()] },
        RepairScan { name: "Personal".to_string(), own_exists: false, found: Vec::new() },
        RepairScan { name: "UKR".to_string(), own_exists: true, found: vec!["/h/apps/Signal-UKR.desktop".to_string()] },
    ];
    let plan = f.store.repair(&scans);
    assert_eq!(plan.report.updated, ["UKR"]);
    assert_eq!(plan.report.created, ["Personal"]);
    assert_eq!(
        plan.report.skipped,
        [("Damon".to_string(), "signal-desktop-damon.desktop".to_string())]
    );
    assert_eq!(plan.write, ["Personal", "UKR"]);

    // Running it again rewrites both; nothing is created any more.
    let again = [
        RepairScan { name: "Personal".to_string(), own_exists: true, found: Vec::new() },
        RepairScan { name: "UKR".to_string(), own_exists: true, found: Vec::new() },
    ];
    let plan = f.store.repair(&again);
    assert_eq!(plan.report.updated, ["Personal", "UKR"]);
    assert!(plan.report.created.is_empty());
}

#[test]
fn launch_passes_the_profile_to_the_launcher() {
    let mut f = fixture();
    f.store.launch("Work", true).unwrap();
    assert_eq!(*f.launched.0.borrow(), ["Work"]);
    assert!(f.store.launch("Nope", false).is_err());
    assert!(f.store.launch("../home", true).is_err());
    assert_eq!(f.launched.0.borrow().len(), 1);
}

#[test]
fn launching_reports_the_launchers_failure() {
    let mut store = Store::new(Paths::for_home("/h", None), Box::new(Recorder::default()), Box::new(Failing));
    assert_eq!(
        store.launch("Work", true),
        Err(LaunchError::Failed("setsid exited with 1".to_string()))
    );
}

#[test]
fn the_default_starts_unless_locked() {
    let mut f = fixture();
    assert_eq!(f.store.launch_default(None), Ok(()));
    let hidden = "[Desktop Entry]\nHidden=true\n";
    assert_eq!(f.store.launch_default(Some(hidden)), Err(LaunchError::Locked));
    assert_eq!(*f.launched.0.borrow(), ["(default)"]);
}

#[test]
fn links_go_to_the_named_profile() {
    let mut f = fixture();
    assert_eq!(f.store.open_link("Work", "signalcaptcha://token", true, None), Ok(()));
    assert_eq!(f.store.open_link(DEFAULT_NAME, "sgnl://x", false, None), Ok(()));
    assert_eq!(
        f.store.open_link("Work", "https://example.com", true, None),
        Err(LaunchError::NotALink("https://example.com".to_string()))
    );
    assert_eq!(
        f.store.open_link("Nope", "sgnl://x", false, None),
        Err(LaunchError::NotFound("Nope".to_string()))
    );
    assert_eq!(
        f.store.open_link(DEFAULT_NAME, "sgnl://x", false, Some("Hidden=true\n")),
        Err(LaunchError::Locked)
    );
    assert_eq!(*f.launched.0.borrow(), ["Work signalcaptcha://token", "(default) sgnl://x"]);
}

#[test]
fn the_default_moves_to_a_free_valid_name() {
    let f = fixture();
    let entries = [
        Entry { name: "Work".to_string(), is_dir: true },
        Entry { name: "notes".to_string(), is_dir: false },
    ];
    assert_eq!(f.store.adopt_default(" Personal ", true, false, &entries), Ok("Personal".to_string()));
    assert_eq!(f.store.adopt_default("Personal", false, false, &entries), Err(AdoptError::NoDefault));
    assert_eq!(f.store.adopt_default("Personal", true, true, &entries), Err(AdoptError::Running));
    assert!(matches!(
        f.store.adopt_default("work", true, false, &entries),
        Err(AdoptError::Name(CreateError::Exists(n))) if n == "Work"
    ));
    assert!(matches!(
        f.store.adopt_default("notes", true, false, &entries),
        Err(AdoptError::Name(CreateError::Exists(_)))
    ));
    assert!(matches!(
        f.store.adopt_default("My Work", true, false, &entries),
        Err(AdoptError::Name(CreateError::Invalid { .. }))
    ));
}

#[test]
fn the_store_locks_and_unlocks_the_default() {
    let f = fixture();
    assert!(matches!(
        f.store.lock_default(None),
        Ok(multisignal::lock::OverrideChange::Write(_))
    ));
    assert_eq!(
        f.store.unlock_default(Some(multisignal::lock::OVERRIDE)),
        Ok(multisignal::lock::OverrideChange::Remove)
    );
}

#[test]
fn adopt_and_launch_messages() {
    assert_eq!(
        AdoptError::Launcher { name: "P".to_string(), source: "denied".to_string() }.message(),
        "Moved to ~/Signal/P, but its app menu entry could not be written (denied). Use Repair."
    );
    assert_eq!(AdoptError::NoDefault.message(), "The default Signal has no data to move");
    assert_eq!(LaunchError::Locked.message(), "the default Signal is locked; unlock it first");
    assert_eq!(LaunchError::NotFound("Nope".to_string()).message(), "no profile named \"Nope\"");
    assert_eq!(
        LaunchError::NotFound("a\"b\n".to_string()).message(),
        "no profile named \"a\\\"b\\n\""
    );
    assert_eq!(LaunchError::NotALink("x".to_string()).message(), "not a Signal link: x");
}

#[test]
fn the_default_is_never_deleted() {
    let mut f = fixture();
    assert_eq!(
        f.store.delete(DEFAULT_NAME, true, &nothing_runs(), Ok(Vec::new())),
        Err(DeleteError::NotFound(DEFAULT_NAME.to_string()))
    );
    assert!(f.trashed.0.borrow().is_empty());
}

#[test]
fn the_dialog_and_the_store_agree_on_names() {
    let f = fixture();
    let taken = names(&["Work"]);
    for input in ["Travel", " work ", "My Work", "!!!", "a.b"] {
        let v = validate(input, &taken);
        let r = f.store.new_name(input, &taken);
        match (&v, &r) {
            (Validation::Valid, Ok(_)) => {}
            (Validation::Exists(a), Err(CreateError::Exists(b))) => assert_eq!(a, b),
            (Validation::Invalid { suggestion: s }, Err(CreateError::Invalid { suggestion: t, .. })) => {
                assert_eq!(s, t)
            }
            other => panic!("{input:?}: {other:?}"),
        }
    }
}

#[test]
fn a_free_valid_name_is_adopted_trimmed() {
    let f = fixture();
    let entries = [Entry { name: "Work".to_string(), is_dir: true }];
    assert_eq!(f.store.adopt_default("  Home\t", true, false, &entries), Ok("Home".to_string()));
    assert_eq!(f.store.adopt_default("Home", true, false, &[]), Ok("Home".to_string()));
}

#[test]
fn starting_a_profile_asks_for_that_profile_without_a_link() {
    assert_eq!(
        profile_request("Work", None, true),
        Ok(LaunchRequest::Profile { name: "Work".to_string(), link: None })
    );
    assert_eq!(
        profile_request("Work", Some("sgnl://x"), true),
        Ok(LaunchRequest::Profile { name: "Work".to_string(), link: Some("sgnl://x".to_string()) })
    );
    assert_eq!(profile_request("Work", None, false), Err(LaunchError::NotFound("Work".to_string())));
    assert_eq!(
        profile_request("../home", None, true),
        Err(LaunchError::NotFound("../home".to_string()))
    );
}

#[test]
fn starting_the_default_asks_for_it_unless_locked() {
    assert_eq!(default_request(None, None), Ok(LaunchRequest::Default { link: None }));
    assert_eq!(
        default_request(Some("sgnl://x"), Some("[Desktop Entry]\nName=Signal\n")),
        Ok(LaunchRequest::Default { link: Some("sgnl://x".to_string()) })
    );
    assert_eq!(default_request(None, Some("Hidden=true\n")), Err(LaunchError::Locked));
}

#[test]
fn a_link_request_names_the_profile_and_keeps_the_link() {
    assert_eq!(
        link_request("Work", "sgnl://x", true, None),
        Ok(LaunchRequest::Profile { name: "Work".to_string(), link: Some("sgnl://x".to_string()) })
    );
    assert_eq!(
        link_request(DEFAULT_NAME, "signalcaptcha://t", false, None),
        Ok(LaunchRequest::Default { link: Some("signalcaptcha://t".to_string()) })
    );
    assert_eq!(
        link_request(DEFAULT_NAME, "sgnl://x", false, Some("Hidden=true\n")),
        Err(LaunchError::Locked)
    );
    assert_eq!(
        link_request("Work", "https://x", true, None),
        Err(LaunchError::NotALink("https://x".to_string()))
    );
    assert_eq!(
        link_request("Nope", "sgnl://x", false, None),
        Err(LaunchError::NotFound("Nope".to_string()))
    );
}

#[test]
fn launching_hands_the_request_over_unchanged() {
    let mut f = fixture();
    assert_eq!(f.store.launch("Work", true), Ok(()));
    assert_eq!(f.store.launch_default(None), Ok(()));
    assert_eq!(f.store.open_link("Work", "sgnl://a", true, None), Ok(()));
    assert_eq!(f.store.open_link(DEFAULT_NAME, "sgnl://b", false, None), Ok(()));
    assert_eq!(*f.launched.0.borrow(), ["Work", "(default)", "Work sgnl://a", "(default) sgnl://b"]);
    assert_eq!(f.store.launch("Nope", false), Err(LaunchError::NotFound("Nope".to_string())));
    assert_eq!(f.store.launch_default(Some("Hidden=true\n")), Err(LaunchError::Locked));
    assert_eq!(f.launched.0.borrow().len(), 4);
}

#[test]
fn each_trash_answer_decides_the_next_step() {
    let plan = names(&["/a/x.desktop", "/h/Signal/Work"]);
    assert_eq!(delete_step(&plan, 0, Ok(()), "Work"), DeleteStep::Next(1));
    assert_eq!(delete_step(&plan, 1, Ok(()), "Work"), DeleteStep::Done);
    assert_eq!(
        delete_step(&plan, 0, Err("read-only".to_string()), "Work"),
        DeleteStep::Stop(DeleteError::Trash { name: "Work".to_string(), reason: "read-only".to_string() })
    );
    assert_eq!(
        delete_step(&plan, 1, Err("gone".to_string()), "Work"),
        DeleteStep::Stop(DeleteError::Trash { name: "Work".to_string(), reason: "gone".to_string() })
    );
}

#[test]
fn creating_reports_the_folder_and_launcher_outcomes() {
    assert_eq!(folder_made("Work", FolderOutcome::Made), Ok(()));
    assert_eq!(
        folder_made("Work", FolderOutcome::AlreadyExists),
        Err(CreateError::Exists("Work".to_string()))
    );
    assert_eq!(
        folder_made("Work", FolderOutcome::Failed("denied".to_string())),
        Err(CreateError::Io("denied".to_string()))
    );
    assert_eq!(launcher_written("Work", Ok(())), (false, Ok("Work".to_string())));
    assert_eq!(
        launcher_written("Work", Err("disk full".to_string())),
        (true, Err(CreateError::Io("disk full".to_string())))
    );
}

#[test]
fn delete_refuses_a_profile_running_under_another_spelling_of_its_path() {
    let mut f = fixture();
    let running = Running { default: false, data_dirs: vec!["/h/Signal//A/".to_string()] };
    assert_eq!(
        f.store.delete("A", true, &running, Ok(Vec::new())),
        Err(DeleteError::Running("A".to_string()))
    );
    assert!(f.trashed.0.borrow().is_empty());
}

#[test]
fn adopting_reports_the_names_creating_would() {
    let f = fixture();
    let entries = [
        Entry { name: "Work".to_string(), is_dir: true },
        Entry { name: "notes".to_string(), is_dir: false },
    ];
    assert_eq!(
        f.store.adopt_default(" My Work ", true, false, &entries),
        Err(AdoptError::Name(CreateError::Invalid {
            input: "My Work".to_string(),
            suggestion: Some("My-Work".to_string()),
        }))
    );
    assert_eq!(
        f.store.adopt_default("!!!", true, false, &entries),
        Err(AdoptError::Name(CreateError::Invalid { input: "!!!".to_string(), suggestion: None }))
    );
    assert_eq!(
        f.store.adopt_default("WORK", true, false, &entries),
        Err(AdoptError::Name(CreateError::Exists("Work".to_string())))
    );
    assert_eq!(
        f.store.adopt_default("notes", true, false, &entries),
        Err(AdoptError::Name(CreateError::Exists("notes".to_string())))
    );
}

#[test]
fn repairing_twice_does_what_repairing_once_did() {
    let f = fixture();
    let damon = vec!["/h/apps/signal-desktop-damon.desktop".to_string()];
    let scans = [
        RepairScan { name: "Damon".to_string(), own_exists: false, found: damon.clone() },
        RepairScan { name: "Personal".to_string(), own_exists: false, found: Vec::new() },
        RepairScan { name: "UKR".to_string(), own_exists: true, found: Vec::new() },
    ];
    let first = f.store.repair(&scans);
    let again = [
        RepairScan { name: "Damon".to_string(), own_exists: false, found: damon },
        RepairScan { name: "Personal".to_string(), own_exists: true, found: Vec::new() },
        RepairScan { name: "UKR".to_string(), own_exists: true, found: Vec::new() },
    ];
    let second = f.store.repair(&again);
    assert_eq!(second.write, first.write);
    assert_eq!(second.report.updated, first.write);
    assert!(second.report.created.is_empty());
    assert_eq!(second.report.skipped, first.report.skipped);
}

#[test]
fn a_locked_default_is_not_started_until_unlocked() {
    let mut f = fixture();
    let locked = match f.store.lock_default(None) {
        Ok(multisignal::lock::OverrideChange::Write(text)) => text,
        other => panic!("unexpected {other:?}"),
    };
    assert_eq!(f.store.launch_default(Some(&locked)), Err(LaunchError::Locked));
    assert_eq!(
        f.store.open_link(DEFAULT_NAME, "sgnl://x", false, Some(&locked)),
        Err(LaunchError::Locked)
    );
    assert!(f.launched.0.borrow().is_empty());
    assert_eq!(
        f.store.unlock_default(Some(&locked)),
        Ok(multisignal::lock::OverrideChange::Remove)
    );
    assert_eq!(f.store.launch_default(None), Ok(()));
    assert_eq!(*f.launched.0.borrow(), ["(default)"]);
}
