use multisignal::lock::{
    is_locked, is_ours, lock, override_path, unlock, LockError, OverrideChange, MARKER, OVERRIDE,
    SNAP_ENTRY_ID,
};
use multisignal::paths::Paths;

#[test]
fn lock_writes_our_override_and_unlock_removes_it() {
    let p = Paths::for_home("/h", None);
    assert!(!is_locked(None));
    assert_eq!(lock(&p, None), Ok(OverrideChange::Write(OVERRIDE.to_string())));
    assert!(is_locked(Some(OVERRIDE)));
    assert!(OVERRIDE.contains("Hidden=true"));
    assert_eq!(lock(&p, Some(OVERRIDE)), Ok(OverrideChange::Keep), "locking twice is fine");
    assert_eq!(unlock(&p, Some(OVERRIDE)), Ok(OverrideChange::Remove));
    assert_eq!(unlock(&p, None), Ok(OverrideChange::Keep), "and so is unlocking twice");
}

#[test]
fn a_hand_made_override_is_left_alone() {
    let p = Paths::for_home("/h", None);
    let mine = "[Desktop Entry]\nType=Application\nName=My Signal\nExec=x\n";
    assert!(!is_locked(Some(mine)));
    assert_eq!(lock(&p, Some(mine)), Err(LockError::MadeByHand(override_path(&p))));
    assert_eq!(unlock(&p, Some(mine)), Ok(OverrideChange::Keep), "nothing of ours to remove");
}

#[test]
fn a_hand_made_hiding_override_cannot_be_unlocked_here() {
    let p = Paths::for_home("/h", None);
    let theirs = "[Desktop Entry]\nName=Signal\n  Hidden=true  \n";
    assert!(is_locked(Some(theirs)));
    assert!(!is_ours(theirs));
    assert_eq!(lock(&p, Some(theirs)), Ok(OverrideChange::Keep));
    let e = unlock(&p, Some(theirs)).unwrap_err();
    assert_eq!(e, LockError::HiddenByHand(override_path(&p)));
    assert_eq!(
        e.message(),
        "/h/.local/share/applications/signal-desktop_signal-desktop.desktop hides Signal but wasn't made by Signal Profiles; remove it by hand"
    );
}

#[test]
fn the_override_replaces_the_snaps_entry() {
    let p = Paths::for_home("/h", Some("/d"));
    assert_eq!(override_path(&p), format!("/d/applications/{SNAP_ENTRY_ID}"));
    assert!(is_ours(OVERRIDE));
    assert!(OVERRIDE.lines().any(|l| l == MARKER));
    assert_eq!(
        LockError::MadeByHand("/x".to_string()).message(),
        "/x was made by hand; Signal Profiles leaves it alone"
    );
}

#[test]
fn hidden_must_be_a_whole_line() {
    assert!(!is_locked(Some("Hidden=trueish\n")));
    assert!(!is_locked(Some("# Hidden=true\n")));
    assert!(is_locked(Some("\tHidden=true\r\n")));
}
