use multisignal::paths::{file_name, join, Paths};

#[test]
fn derives_locations_from_home() {
    let p = Paths::for_home("/h", None);
    assert_eq!(p.profile_dir("Work"), "/h/Signal/Work");
    assert_eq!(
        p.own_launcher("Work"),
        "/h/.local/share/applications/Signal-Work.desktop"
    );
}

#[test]
fn respects_xdg_data_home() {
    let p = Paths::for_home("/h", Some("/data"));
    assert_eq!(p.applications, "/data/applications");
}

#[test]
fn default_signal_data_is_the_snaps_own_folder() {
    let p = Paths::for_home("/h", None);
    assert_eq!(
        p.default_data_dir,
        "/h/snap/signal-desktop/current/.config/Signal"
    );
}

#[test]
fn settings_live_in_the_config_dir() {
    let p = Paths::for_home("/h", None);
    assert_eq!(p.settings, "/h/.config/multisignal/settings.ini");
}

#[test]
fn fixed_locations_of_the_snap_and_proc() {
    let p = Paths::for_home("/home/me/", None);
    assert_eq!(p.signal_bin, "/snap/bin/signal-desktop");
    assert_eq!(p.proc_root, "/proc");
    assert_eq!(p.signal_base, "/home/me/Signal");
}

#[test]
fn joins_like_pathbuf_push() {
    assert_eq!(join("/h", "x"), "/h/x");
    assert_eq!(join("/h/", "x"), "/h/x");
    assert_eq!(join("", "x"), "x");
    assert_eq!(join("/h", "/abs"), "/abs");
}

#[test]
fn file_name_is_the_last_component() {
    assert_eq!(file_name("/a/b/Signal-Work.desktop"), "Signal-Work.desktop");
    assert_eq!(file_name("plain"), "plain");
    assert_eq!(file_name("/a/b/"), "");
}

#[test]
fn a_profile_folder_is_named_after_the_profile() {
    let p = Paths::for_home("/h", None);
    for n in ["Work", "a.b-c"] {
        assert_eq!(file_name(&p.profile_dir(n)), n);
    }
}
