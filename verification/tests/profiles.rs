use multisignal::names::is_valid;
use multisignal::paths::Paths;
use multisignal::procs::Running;
use multisignal::profiles::{
    existing_ignoring_case, list_names, load_all, DefaultData, Entry, Folder, DEFAULT_NAME,
};

fn dir(name: &str) -> Entry {
    Entry { name: name.to_string(), is_dir: true }
}

#[test]
fn the_default_name_can_never_be_a_profile_folder() {
    assert!(!is_valid(DEFAULT_NAME));
}

#[test]
fn missing_signal_dir_means_no_profiles() {
    assert!(list_names(&[]).is_empty());
}

#[test]
fn lists_valid_profile_folders_sorted_ignoring_case() {
    let entries = [
        dir("work"),
        dir("Damon"),
        dir("UKR"),
        dir("has space"),
        dir(".hidden"),
        Entry { name: "file.txt".to_string(), is_dir: false },
    ];
    assert_eq!(list_names(&entries), ["Damon", "UKR", "work"]);
}

#[test]
fn finds_an_existing_name_ignoring_case() {
    let names = vec!["Work".to_string()];
    assert_eq!(existing_ignoring_case(&names, "work").as_deref(), Some("Work"));
    assert_eq!(existing_ignoring_case(&names, "Travel"), None);
}

#[test]
fn the_first_name_matching_ignoring_case_is_found() {
    let names = vec!["Alpha".to_string(), "WORK".to_string(), "Work".to_string()];
    assert_eq!(existing_ignoring_case(&names, "work").as_deref(), Some("WORK"));
}

#[test]
fn load_reports_size_launchers_and_running() {
    let p = Paths::for_home("/h", None);
    let folders = [Folder {
        name: "UKR".to_string(),
        size_bytes: 5000,
        launchers: vec![p.own_launcher("UKR")],
    }];
    let running = Running { default: false, data_dirs: vec![p.profile_dir("UKR")] };
    let profiles = load_all(&p, None, &folders, &running);
    assert_eq!(profiles.len(), 1);
    let ukr = &profiles[0];
    assert_eq!(ukr.size_bytes, 5000);
    assert!(ukr.running);
    assert_eq!(ukr.launchers, vec![p.own_launcher("UKR")]);
    assert_eq!(ukr.dir, "/h/Signal/UKR");
    assert!(!ukr.is_default && !ukr.locked);
}

#[test]
fn lists_the_default_signal_first_when_the_snap_has_data() {
    let p = Paths::for_home("/h", None);
    let folders = [Folder { name: "Alpha".to_string(), size_bytes: 0, launchers: Vec::new() }];
    let running = Running { default: true, data_dirs: Vec::new() };
    let profiles = load_all(&p, Some(DefaultData { size_bytes: 700, locked: false }), &folders, &running);
    let names: Vec<_> = profiles.iter().map(|p| p.name.as_str()).collect();
    assert_eq!(names, [DEFAULT_NAME, "Alpha"]);
    let default = &profiles[0];
    assert!(default.is_default);
    assert_eq!(default.title, DEFAULT_NAME);
    assert_eq!(profiles[1].title, "Alpha");
    assert!(default.running);
    assert!(!profiles[1].running);
    assert_eq!(default.size_bytes, 700);
    assert_eq!(default.dir, p.default_data_dir);
    assert!(!profiles[1].is_default);
}

#[test]
fn no_default_entry_without_snap_data() {
    let p = Paths::for_home("/h", None);
    let folders = [Folder { name: "Alpha".to_string(), size_bytes: 1, launchers: Vec::new() }];
    let running = Running { default: true, data_dirs: Vec::new() };
    assert!(load_all(&p, None, &folders, &running).iter().all(|p| !p.is_default));
}

#[test]
fn a_locked_default_is_marked_locked() {
    let p = Paths::for_home("/h", None);
    let running = Running { default: false, data_dirs: Vec::new() };
    let profiles = load_all(&p, Some(DefaultData { size_bytes: 1, locked: true }), &[], &running);
    assert!(profiles[0].locked);
    assert!(profiles[0].launchers.is_empty());
}

#[test]
fn a_folder_named_like_the_default_is_no_profile() {
    let entries = [dir(DEFAULT_NAME), dir("Work")];
    assert_eq!(list_names(&entries), ["Work"]);
}
