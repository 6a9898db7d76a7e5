use multisignal::links::{is_signal_link, route, Route, SCHEMES};
use multisignal::profiles::Profile;

fn profile(name: &str, running: bool) -> Profile {
    Profile {
        name: name.into(),
        title: name.into(),
        dir: format!("/x/{name}"),
        size_bytes: 0,
        running,
        launchers: Vec::new(),
        is_default: false,
        locked: false,
    }
}

#[test]
fn recognises_signal_links() {
    assert!(is_signal_link("signalcaptcha://signal-hcaptcha.abc"));
    assert!(is_signal_link("sgnl://linkdevice?uuid=x"));
    assert!(is_signal_link("SGNL://x"));
    assert!(!is_signal_link("https://signal.org"));
    assert!(!is_signal_link("file:///tmp/x"));
}

#[test]
fn the_only_running_profile_gets_the_link() {
    let ps = [profile("A", false), profile("B", true)];
    assert_eq!(route(&ps), Route::To("B".into()));
}

#[test]
fn several_running_profiles_mean_asking_among_them() {
    let ps = [profile("A", true), profile("B", false), profile("C", true)];
    assert_eq!(route(&ps), Route::Ask(vec!["A".into(), "C".into()]));
}

#[test]
fn nothing_running_means_asking_among_all() {
    let ps = [profile("A", false), profile("B", false)];
    assert_eq!(route(&ps), Route::Ask(vec!["A".into(), "B".into()]));
}

#[test]
fn a_locked_default_never_gets_links() {
    let mut default = profile("Signal (default)", true);
    default.is_default = true;
    default.locked = true;
    let ps = [default, profile("A", false)];
    assert_eq!(route(&ps), Route::Ask(vec!["A".into()]));
}

#[test]
fn schemes_need_the_separator_and_an_exact_name() {
    assert_eq!(SCHEMES, ["sgnl", "signalcaptcha"]);
    assert!(!is_signal_link("sgnl:x"));
    assert!(!is_signal_link("sgnlx://x"));
    assert!(!is_signal_link("sgn://x"));
    assert!(is_signal_link("SignalCaptcha://"));
    assert!(!is_signal_link(""));
}

#[test]
fn a_locked_running_default_leaves_the_only_other_running_profile() {
    let mut default = profile("Signal (default)", true);
    default.is_default = true;
    default.locked = true;
    let ps = [default, profile("A", true), profile("B", false)];
    assert_eq!(route(&ps), Route::To("A".into()));
}

#[test]
fn no_profiles_means_asking_among_none() {
    assert_eq!(route(&[]), Route::Ask(Vec::new()));
}
