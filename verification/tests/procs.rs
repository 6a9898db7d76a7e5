use multisignal::procs::{is_pid_name, scan, Running};

fn cmdline(args: &[&str]) -> Vec<u8> {
    (args.join("\0") + "\0").into_bytes()
}

#[test]
fn missing_proc_root_means_nothing_runs() {
    let running = scan(&Vec::new());
    assert!(running.data_dirs.is_empty());
    assert!(!running.default);
}

#[test]
fn finds_signal_processes_by_their_data_dir() {
    let lines = vec![
        cmdline(&[
            "/snap/signal-desktop/945/opt/Signal/signal-desktop",
            "--user-data-dir=/h/Signal/UKR",
        ]),
        cmdline(&["/opt/google/chrome/chrome", "--user-data-dir=/h/Signal/Fake"]),
        cmdline(&["bash", "-c", "echo signal-desktop --user-data-dir=/h/Signal/Shell"]),
    ];
    let running = scan(&lines);
    assert!(running.contains("/h/Signal/UKR"));
    assert!(!running.contains("/h/Signal/Fake"), "not a Signal process");
    assert!(!running.contains("/h/Signal/Shell"), "text inside another argument");
    assert!(!running.default);
}

#[test]
fn reads_the_space_joined_command_line_signal_writes() {
    let raw = b"/snap/signal-desktop/945/opt/Signal/signal-desktop --no-sandbox --user-data-dir=/h/Signal/A\0\0".to_vec();
    let running = scan(&vec![raw]);
    assert_eq!(running.data_dirs, vec!["/h/Signal/A".to_string()]);
}

#[test]
fn signal_without_a_data_dir_is_the_default() {
    let running = scan(&vec![cmdline(&["/snap/bin/signal-desktop"])]);
    assert!(running.default);
    assert!(running.data_dirs.is_empty());
    let running = scan(&vec![b"/snap/signal-desktop/945/opt/Signal/signal-desktop --no-sandbox --disable-gpu\0".to_vec()]);
    assert!(running.default);
}

#[test]
fn each_data_dir_is_listed_once() {
    let one = cmdline(&["/x/signal-desktop", "--user-data-dir=/h/Signal/A"]);
    let running = scan(&vec![one.clone(), one, cmdline(&["/x/signal-desktop", "--user-data-dir=/h/Signal/B"])]);
    assert_eq!(running.data_dirs, vec!["/h/Signal/A".to_string(), "/h/Signal/B".to_string()]);
}

#[test]
fn invalid_utf8_in_a_data_dir_reads_as_replacement_characters() {
    let raw = b"/x/signal-desktop\0--user-data-dir=/h/Signal/\xff\0".to_vec();
    let running = scan(&vec![raw]);
    assert_eq!(running.data_dirs, vec!["/h/Signal/\u{fffd}".to_string()]);
}

#[test]
fn the_first_data_dir_argument_counts() {
    let running = scan(&vec![cmdline(&[
        "/x/signal-desktop",
        "--user-data-dir=/h/Signal/First",
        "--user-data-dir=/h/Signal/Second",
    ])]);
    assert_eq!(running.data_dirs, vec!["/h/Signal/First".to_string()]);
}

#[test]
fn process_entries_are_numbers() {
    assert!(is_pid_name(b"4242"));
    assert!(!is_pid_name(b"self"));
    assert!(!is_pid_name(b"12a"));
}

#[test]
fn running_contains_exact_dirs_only() {
    let r = Running { default: false, data_dirs: vec!["/h/Signal/A".to_string()] };
    assert!(r.contains("/h/Signal/A"));
    assert!(!r.contains("/h/Signal/AB"));
}

#[test]
fn the_program_is_recognised_by_its_file_name() {
    let with = |argv0: &str| {
        scan(&vec![cmdline(&[argv0, "--user-data-dir=/h/Signal/A"])]).contains("/h/Signal/A")
    };
    assert!(with("signal-desktop"));
    assert!(with("./signal-desktop"));
    assert!(with("/x/signal-desktop/"));
    assert!(with("/x/signal-desktop/."));
    assert!(!with("/x/signal-desktop/.."));
    assert!(!with("/x/signal-desktop-beta"));
    assert!(!with("/x/not-signal-desktop"));
}

#[test]
fn data_dirs_compare_as_paths() {
    let running = scan(&vec![
        cmdline(&["/x/signal-desktop", "--user-data-dir=/h/Signal/A/"]),
        cmdline(&["/x/signal-desktop", "--user-data-dir=/h//Signal/./A"]),
        cmdline(&["/x/signal-desktop", "--user-data-dir=/h/Signal/B"]),
    ]);
    assert_eq!(running.data_dirs, vec!["/h/Signal/A/".to_string(), "/h/Signal/B".to_string()]);
    assert!(running.contains("/h/Signal/A"));
    assert!(running.contains("/h/Signal//A/."));
    assert!(!running.contains("/h/Signal/AB"));
    assert!(!running.contains("h/Signal/A"));
}
