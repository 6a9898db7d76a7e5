use multisignal::paths::Paths;
use multisignal::system::{
    default_args, install_outcome, last_lines, other_install, profile_args, InstallOutcome,
};

#[test]
fn keeps_the_last_non_empty_lines() {
    assert_eq!(last_lines("a\nb\n\nc\nd\n", 2), "c\nd");
    assert_eq!(last_lines("only\n", 5), "only");
    assert_eq!(last_lines("", 5), "");
}

#[test]
fn blank_lines_do_not_count() {
    assert_eq!(last_lines("a\n   \n\t\nb", 2), "a\nb");
    assert_eq!(last_lines("a\nb\nc", 0), "");
    assert_eq!(last_lines("x\r\ny\r\n", 5), "x\ny");
}

#[test]
fn signal_starts_with_the_profile_and_an_optional_link() {
    let p = Paths::for_home("/h", None);
    assert_eq!(profile_args(&p, "Work", None), ["--user-data-dir=/h/Signal/Work"]);
    assert_eq!(
        profile_args(&p, "Work", Some("signalcaptcha://token")),
        ["--user-data-dir=/h/Signal/Work", "signalcaptcha://token"]
    );
    assert!(default_args(None).is_empty());
    assert_eq!(default_args(Some("sgnl://x")), ["sgnl://x"]);
}

#[test]
fn what_an_install_came_to() {
    assert_eq!(install_outcome(true, Some(1), "boom"), InstallOutcome::Installed);
    assert_eq!(install_outcome(false, Some(126), "x"), InstallOutcome::Cancelled);
    assert_eq!(install_outcome(false, Some(127), "x"), InstallOutcome::Cancelled);
    assert_eq!(
        install_outcome(false, Some(1), "1\n2\n\n3\n4\n5\n6\n"),
        InstallOutcome::Failed("2\n3\n4\n5\n6".to_string())
    );
    assert_eq!(install_outcome(false, None, ""), InstallOutcome::Failed(String::new()));
}

#[test]
fn other_installs_flatpak_first() {
    assert_eq!(other_install(true, true), Some("Flatpak"));
    assert_eq!(other_install(false, true), Some("apt"));
    assert_eq!(other_install(false, false), None);
}
