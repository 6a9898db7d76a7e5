use multisignal::procs::Running;
use multisignal::profiles::{Profile, DEFAULT_NAME};
use multisignal::store::RepairReport;
use multisignal::ui::avatar::{color_index, initial, COLORS};
use multisignal::ui::create_dialog::{status, validate, validate_new_name, Purpose, Validation, HINT};
use multisignal::ui::detail::{launcher_file, menu_entry, primary_label, status_text};
use multisignal::ui::settings::{default_title, Appearance};
use multisignal::ui::summary_line;
use multisignal::ui::create_dialog::{fix_label, preview};
use multisignal::ui::detail::{default_note, lock_action_label, tilde, trash_note};
use multisignal::ui::link_handler::{content_type, content_types, needs_claim};
use multisignal::ui::settings::restored_size;
use multisignal::ui::sidebar_row::secondary_text;
use multisignal::ui::{delete_dialog, install_page, link_dialog};
use multisignal::ui::window::{
    context_labels, next_selection, repair_message, running_changed, with_default_title,
    ActionStates,
};

fn profile(name: &str, running: bool) -> Profile {
    Profile {
        name: name.into(),
        title: name.into(),
        dir: format!("/h/Signal/{name}"),
        size_bytes: 0,
        running,
        launchers: Vec::new(),
        is_default: false,
        locked: false,
    }
}

fn names(list: &[&str]) -> Vec<String> {
    list.iter().map(|s| s.to_string()).collect()
}

#[test]
fn shows_the_initial_or_a_plus() {
    assert_eq!(initial("damon"), "D");
    assert_eq!(initial("  "), "+");
}

#[test]
fn colour_depends_only_on_the_name() {
    assert_eq!(color_index("Work"), color_index("work"));
    assert!(color_index("Work") < COLORS);
}

#[test]
fn summary_line_reads_naturally() {
    assert_eq!(summary_line(1, 0, 20_000), "1 profile \u{b7} 20 KB");
    assert_eq!(summary_line(3, 1, 208_000_000), "3 profiles \u{b7} 1 running \u{b7} 208 MB");
}

#[test]
fn ids_round_trip() {
    for a in Appearance::ALL {
        assert_eq!(Appearance::from_id(a.id()), Some(a));
    }
    assert_eq!(Appearance::from_id("purple"), None);
}

#[test]
fn initials_use_full_upper_case_mappings() {
    assert_eq!(initial(" \u{df}tra\u{df}e"), "SS");
    assert_eq!(initial("\u{e9}lise"), "\u{c9}");
    assert_eq!(initial("9lives"), "9");
}

#[test]
fn colour_is_the_byte_sum_of_the_lower_case_name() {
    // "work": 119 + 111 + 114 + 107 = 451, and 451 % 6 == 1.
    assert_eq!(color_index("WORK"), 1);
    assert_eq!(color_index("  work "), 1);
    assert_eq!(color_index(""), 0);
}

#[test]
fn appearance_labels_and_saved_choice() {
    assert_eq!(Appearance::System.label(), "Automatic");
    assert_eq!(Appearance::Dark.id(), "dark");
    assert_eq!(Appearance::load(Some("light")), Some(Appearance::Light));
    assert_eq!(Appearance::load(Some("Light")), None);
    assert_eq!(Appearance::load(None), None);
}

#[test]
fn the_defaults_own_name_is_trimmed() {
    assert_eq!(default_title(Some("  Personal ")).as_deref(), Some("Personal"));
    assert_eq!(default_title(Some("   ")), None);
    assert_eq!(default_title(None), None);
}

#[test]
fn validates_typed_names() {
    let taken = names(&["Work"]);
    assert_eq!(validate("Travel", &taken), Validation::Valid);
    assert_eq!(
        validate("My Work", &taken),
        Validation::Invalid { suggestion: Some("My-Work".into()) }
    );
    assert_eq!(validate("work", &taken), Validation::Exists("Work".into()));
    assert_eq!(validate("", &taken), Validation::Empty);
    assert_eq!(validate("   ", &taken), Validation::Empty);
    assert_eq!(validate("!!!", &taken), Validation::Invalid { suggestion: None });
}

#[test]
fn the_defaults_name_cannot_be_reused() {
    let taken = names(&["Work"]);
    assert_eq!(
        validate_new_name("personal", &taken, Some("Personal")),
        Validation::Exists("Personal".into())
    );
    assert_eq!(validate_new_name("Travel", &taken, Some("Personal")), Validation::Valid);
    assert_eq!(validate_new_name("work", &taken, Some("Work")), Validation::Exists("Work".into()));
}

#[test]
fn the_line_under_the_field() {
    assert_eq!(status(&Validation::Empty), (HINT.to_string(), false));
    assert_eq!(status(&Validation::Valid), (HINT.to_string(), false));
    assert_eq!(
        status(&Validation::Exists("Work".into())),
        ("\u{201c}Work\u{201d} already exists.".to_string(), true)
    );
    assert_eq!(
        status(&Validation::Invalid { suggestion: Some("a".into()) }),
        ("Spaces and symbols aren\u{2019}t allowed.".to_string(), true)
    );
    assert_eq!(
        status(&Validation::Invalid { suggestion: None }),
        ("Use letters, digits, dot, underscore and dash.".to_string(), true)
    );
    assert_ne!(Purpose::NewProfile.title(), "");
}

#[test]
fn detail_texts_for_a_profile() {
    let mut damon = profile("Damon", false);
    damon.launchers = vec!["/h/apps/signal-desktop-damon.desktop".to_string()];
    assert_eq!(launcher_file(&damon), "signal-desktop-damon.desktop \u{b7} made by hand");
    assert_eq!(primary_label(&damon), "Open Signal");
    assert_eq!(status_text(&damon), "Not running");
    assert_eq!(menu_entry(&damon, Some(Some("Damon".to_string()))), ("Damon".to_string(), false));

    let mut ukr = profile("UKR", true);
    ukr.launchers = vec!["/h/apps/Signal-UKR.desktop".to_string()];
    assert_eq!(launcher_file(&ukr), "Signal-UKR.desktop");
    assert_eq!(primary_label(&ukr), "Show Signal");
    assert_eq!(status_text(&ukr), "Running");
    assert_eq!(menu_entry(&ukr, Some(None)), ("Signal (UKR)".to_string(), false));

    let personal = profile("Personal", false);
    assert_eq!(launcher_file(&personal), "\u{2014}");
    assert_eq!(menu_entry(&personal, None), ("Missing".to_string(), true));

    let mut default = profile(DEFAULT_NAME, true);
    default.is_default = true;
    assert_eq!(menu_entry(&default, None), ("Signal".to_string(), false));
    default.locked = true;
    default.running = false;
    assert_eq!(status_text(&default), "Locked");
    assert_eq!(menu_entry(&default, None), ("Hidden (locked)".to_string(), false));
}

#[test]
fn the_selection_survives_a_reload() {
    let old = names(&["Damon", "Personal", "UKR"]);
    assert_eq!(next_selection(&old, Some("Personal"), &old).as_deref(), Some("Personal"));
    let after = names(&["Damon", "Travel", "UKR"]);
    assert_eq!(next_selection(&old, Some("Personal"), &after).as_deref(), Some("Travel"));
    let shorter = names(&["Damon"]);
    assert_eq!(next_selection(&old, Some("UKR"), &shorter).as_deref(), Some("Damon"));
    assert_eq!(next_selection(&old, None, &after).as_deref(), Some("Damon"));
    assert_eq!(next_selection(&[], Some("Gone"), &after).as_deref(), Some("Damon"));
    assert_eq!(next_selection(&old, Some("Damon"), &[]), None);
}

#[test]
fn actions_follow_the_selection() {
    let stopped = profile("A", false);
    let running = profile("B", true);
    let mut default = profile(DEFAULT_NAME, false);
    default.is_default = true;
    assert_eq!(
        ActionStates::for_selection(Some(&stopped), false),
        ActionStates { open: true, show: true, repair: true, trash: true }
    );
    assert_eq!(
        ActionStates::for_selection(Some(&running), false),
        ActionStates { open: true, show: true, repair: true, trash: false }
    );
    assert_eq!(
        ActionStates::for_selection(Some(&default), false),
        ActionStates { open: true, show: true, repair: false, trash: false }
    );
    assert_eq!(
        ActionStates::for_selection(Some(&stopped), true),
        ActionStates { open: false, show: false, repair: false, trash: false }
    );
    assert_eq!(
        ActionStates::for_selection(None, false),
        ActionStates { open: false, show: false, repair: false, trash: false }
    );
}

#[test]
fn context_menu_labels() {
    let stopped = profile("A", false);
    let mut default = profile(DEFAULT_NAME, true);
    default.is_default = true;
    assert_eq!(context_labels(Some(&stopped)), ["Open Signal", "Show in Files", "Move to Trash\u{2026}"]);
    assert_eq!(context_labels(Some(&default)), ["Show Signal", "Show in Files"]);
}

#[test]
fn a_poll_reloads_only_when_something_started_or_stopped() {
    let ps = [profile("A", true), profile("B", false)];
    let same = Running { default: false, data_dirs: vec!["/h/Signal/A".to_string()] };
    assert!(!running_changed(&ps, &same));
    let stopped = Running { default: false, data_dirs: Vec::new() };
    assert!(running_changed(&ps, &stopped));
}

#[test]
fn repair_toasts() {
    let report = RepairReport {
        updated: Vec::new(),
        created: names(&["Personal"]),
        skipped: Vec::new(),
    };
    assert_eq!(
        repair_message(true, Some("Personal"), &report),
        "Created app menu entry for \u{201c}Personal\u{201d}"
    );
    assert_eq!(repair_message(false, Some("Personal"), &report), "Created 1 app menu entry");
    assert_eq!(repair_message(true, Some("Other"), &report), "Created 1 app menu entry");
    let none = RepairReport::default();
    assert_eq!(repair_message(true, None, &none), "App menu entries are up to date");
    let many = RepairReport { updated: Vec::new(), created: names(&["A", "B", "C"]), skipped: Vec::new() };
    assert_eq!(repair_message(false, None, &many), "Created 3 app menu entries");
}

#[test]
fn dialog_and_page_texts() {
    assert_eq!(fix_label("My-Work"), "Use \u{201c}My-Work\u{201d}");
    assert_eq!(preview("  Travel ", &Validation::Valid), "Travel");
    assert_eq!(preview("My Work", &Validation::Invalid { suggestion: None }), "name");
    assert_eq!(delete_dialog::title("Personal"), "Move \u{201c}Personal\u{201d} to the Trash?");
    assert_eq!(
        delete_dialog::body(20_000),
        "Its messages (20 KB) and app menu entry move to the Trash. You can restore them from the Trash until it\u{2019}s emptied."
    );
    assert_eq!(
        install_page::body(Some("Flatpak")),
        "Signal Profiles uses the Signal snap. Installing it needs your password. The Flatpak version of Signal that is installed can\u{2019}t be used for profiles."
    );
    assert_eq!(
        install_page::body(None),
        "Signal Profiles uses the Signal snap. Installing it needs your password."
    );
    assert!(link_dialog::body(&[profile("A", false), profile("B", true)]).starts_with("More than one Signal is running."));
    assert!(link_dialog::body(&[profile("A", false)]).starts_with("No Signal is running."));
}

#[test]
fn sidebar_rows_and_default_notes() {
    let mut ukr = profile("UKR", true);
    ukr.launchers = vec!["/h/apps/Signal-UKR.desktop".to_string()];
    assert_eq!(secondary_text(&ukr), "Running \u{b7} Empty");
    let personal = profile("Personal", false);
    assert_eq!(secondary_text(&personal), "No app menu entry \u{b7} Empty");
    let mut damon = profile("Damon", false);
    damon.launchers = ukr.launchers.clone();
    damon.size_bytes = 77_000_000;
    assert_eq!(secondary_text(&damon), "77 MB");
    assert_eq!(
        trash_note(&ukr).as_deref(),
        Some("Quit Signal (UKR) before moving it to the Trash. Closing its window can leave it running in the tray.")
    );
    assert_eq!(trash_note(&personal), None);
    let mut default = profile(DEFAULT_NAME, true);
    default.is_default = true;
    default.locked = true;
    assert_eq!(lock_action_label(&default), "Unlock Default Signal");
    assert!(default_note(&default).starts_with("Quit the default Signal to move it. It\u{2019}s locked"));
    assert_eq!(tilde("/home/me/Signal/Work", "/home/me"), "~/Signal/Work");
    assert_eq!(tilde("/home/me/Signal/Work", "/home/me/"), "~/Signal/Work");
    assert_eq!(tilde("/home/meX/a", "/home/me"), "/home/meX/a");
    assert_eq!(tilde("/home/me", "/home/me"), "~/");
    assert_eq!(tilde("/srv/x", "/home/me"), "/srv/x");
    assert_eq!(tilde("/home/me//Signal", "/home/me"), "~/Signal");
    assert_eq!(tilde("/srv/x", "/"), "~/srv/x");
    assert_eq!(tilde("/srv/x", ""), "~//srv/x");
}

#[test]
fn link_content_types_and_the_first_claim() {
    assert_eq!(content_type("sgnl"), "x-scheme-handler/sgnl");
    assert_eq!(content_types(), ["x-scheme-handler/sgnl", "x-scheme-handler/signalcaptcha"]);
    assert!(needs_claim(None));
    assert!(needs_claim(Some(false)));
    assert!(!needs_claim(Some(true)));
}

#[test]
fn saved_window_sizes_below_the_minimum_are_ignored() {
    assert_eq!(restored_size(Some(800), Some(600)), Some((800, 600)));
    assert_eq!(restored_size(Some(359), Some(600)), None);
    assert_eq!(restored_size(Some(800), None), None);
}

#[test]
fn the_default_takes_the_configured_title() {
    let mut default = profile(DEFAULT_NAME, false);
    default.is_default = true;
    let mut list = vec![profile("Work", true), default];
    with_default_title(&mut list, Some("Personal"));
    assert_eq!(list[0].title, "Work");
    assert_eq!(list[1].title, "Personal");
    assert_eq!(list[1].name, DEFAULT_NAME);
    with_default_title(&mut list, None);
    assert_eq!(list[1].title, "Personal");
    assert!(list[0].running);
}

#[test]
fn tilde_compares_whole_components() {
    assert_eq!(tilde("/home/u/./x", "/home/u"), "~/x");
    assert_eq!(tilde("/home/u/x/", "/home/u"), "~/x");
    assert_eq!(tilde("/home/u/x/./y/.", "/home/u"), "~/x/./y");
    assert_eq!(tilde("/home/./u/x", "/home/u"), "~/x");
    assert_eq!(tilde("/home/u/x", "/home/./u/"), "~/x");
    assert_eq!(tilde("/home/user2/x", "/home/user"), "/home/user2/x");
    assert_eq!(tilde("a/b", "a"), "~/b");
    assert_eq!(tilde("./a", "."), "~/a");
    assert_eq!(tilde("/", ""), "~//");
    assert_eq!(tilde("a/./", ""), "~/a");
    assert_eq!(tilde("", "/home/u"), "");
}
