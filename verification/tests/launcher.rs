use multisignal::launcher::{
    display_name, exec_mentions, find, is_desktop_file, render, DesktopFile, LauncherError,
};
use multisignal::paths::Paths;

fn file(path: String, text: &str) -> DesktopFile {
    DesktopFile { path, text: Some(text.to_string()) }
}

#[test]
fn refuses_paths_that_cannot_be_quoted_safely() {
    let p = Paths::for_home("/home/we$ird", None);
    assert!(render(&p, "Work").is_err());
}

#[test]
fn exec_quotes_the_profile_dir_and_has_no_mimetype() {
    let p = Paths::for_home("/home/me", None);
    let text = render(&p, "Work").unwrap();
    let dir = p.profile_dir("Work");
    assert!(text.contains(&format!("\"--user-data-dir={}\" %U", dir)));
    assert!(!text.contains("MimeType"));
    assert!(text.contains("X-MultiSignal-Profile=Work"));
}

#[test]
fn finds_nothing_when_applications_dir_is_missing() {
    let p = Paths::for_home("/home/me", None);
    assert!(find(&p, "A", &[]).is_empty());
}

#[test]
fn the_rendered_launcher_in_full() {
    let p = Paths::for_home("/h", None);
    let text = render(&p, "Work").unwrap();
    assert_eq!(
        text,
        "[Desktop Entry]\n\
         Type=Application\n\
         Name=Signal (Work)\n\
         Comment=Private messaging from your desktop (profile: Work)\n\
         Exec=env BAMF_DESKTOP_FILE_HINT=/var/lib/snapd/desktop/applications/signal-desktop_signal-desktop.desktop /snap/bin/signal-desktop \"--user-data-dir=/h/Signal/Work\" %U\n\
         Icon=/snap/signal-desktop/current/meta/gui/signal-desktop.png\n\
         Terminal=false\n\
         StartupWMClass=Signal\n\
         Categories=Network;InstantMessaging;Chat;\n\
         X-SnapInstanceName=signal-desktop\n\
         X-SnapAppName=signal-desktop\n\
         X-MultiSignal-Profile=Work\n"
    );
}

#[test]
fn every_character_that_needs_escaping_is_refused() {
    for home in ["/h\"", "/h`", "/h$", "/h\\", "/h%", "/h\n"] {
        let p = Paths::for_home(home, None);
        match render(&p, "Work") {
            Err(LauncherError::UnsafePath(dir)) => assert_eq!(dir, p.profile_dir("Work")),
            other => panic!("{home:?}: {other:?}"),
        }
    }
    assert!(render(&Paths::for_home("/home/it's me", None), "Work").is_ok());
}

#[test]
fn finds_own_legacy_and_hand_made_launchers_of_one_profile() {
    let p = Paths::for_home("/h", None);
    let a = p.profile_dir("A");
    let b = p.profile_dir("AB");
    let apps = &p.applications;
    let files = [
        file(
            format!("{apps}/Signal-A.desktop"),
            &format!("[Desktop Entry]\nExec=sh -c 'x --user-data-dir={a} %U'\n"),
        ),
        file(
            format!("{apps}/custom.desktop"),
            &format!("[Desktop Entry]\nExec=env X=1 x --user-data-dir={a}\n"),
        ),
        file(
            format!("{apps}/other.desktop"),
            &format!("[Desktop Entry]\nExec=x --user-data-dir={b} %U\n"),
        ),
        file(format!("{apps}/notes.txt"), &format!("Exec=x --user-data-dir={a}\n")),
        file(format!("{apps}/comment.desktop"), &format!("# --user-data-dir={a}\n")),
        DesktopFile { path: format!("{apps}/unreadable.desktop"), text: None },
    ];
    assert_eq!(
        find(&p, "A", &files),
        vec![format!("{apps}/Signal-A.desktop"), format!("{apps}/custom.desktop")]
    );
    assert_eq!(find(&p, "AB", &files), vec![format!("{apps}/other.desktop")]);
}

#[test]
fn a_written_launcher_is_found_and_named_after_the_profile() {
    let p = Paths::for_home("/h", None);
    let text = render(&p, "Work").unwrap();
    let files = [file(p.own_launcher("Work"), &text)];
    assert_eq!(find(&p, "Work", &files), vec![p.own_launcher("Work")]);
    assert!(find(&p, "Wor", &files).is_empty());
    assert_eq!(display_name(&text).as_deref(), Some("Signal (Work)"));
}

#[test]
fn reads_the_name_of_the_desktop_entry_group() {
    let other = "[Desktop Action new]\nName=Other\n[Desktop Entry]\nName[de]=Arbeit\nName=Damon\n";
    assert_eq!(display_name(other).as_deref(), Some("Damon"));
    assert_eq!(display_name("Name=Loose\n"), None);
    assert_eq!(display_name(""), None);
    assert_eq!(display_name("[Desktop Entry]\r\nName=Crlf\r\n").as_deref(), Some("Crlf"));
}

#[test]
fn desktop_files_by_extension() {
    assert!(is_desktop_file("Signal-Work.desktop"));
    assert!(is_desktop_file("a.b.desktop"));
    assert!(!is_desktop_file(".desktop"));
    assert!(!is_desktop_file("x.desktop.bak"));
    assert!(!is_desktop_file("desktop"));
}

#[test]
fn exec_lines_match_only_whole_paths() {
    assert!(exec_mentions("Exec=x --user-data-dir=/a\n", "--user-data-dir=/a"));
    assert!(exec_mentions("Exec=x \"--user-data-dir=/a\"", "--user-data-dir=/a"));
    assert!(exec_mentions("Exec=x --user-data-dir=/a/b --user-data-dir=/a %U", "--user-data-dir=/a"));
    assert!(!exec_mentions("Exec=x --user-data-dir=/ab\n", "--user-data-dir=/a"));
    assert!(!exec_mentions("TryExec=x --user-data-dir=/a\n", "--user-data-dir=/a"));
}

#[test]
fn the_menu_shows_the_profile_name_whatever_the_program_path() {
    let mut p = Paths::for_home("/home/me", None);
    p.signal_bin = "/opt/sig\nnal".to_string();
    let text = render(&p, "Work").unwrap();
    assert_eq!(display_name(&text), Some("Signal (Work)".to_string()));
}
