use kb_mod_monitor::key::Key;
use kb_mod_monitor::keyboard::diff::KeyboardStateDiff;
use kb_mod_monitor::keyboard::state::KeyboardState;

fn state(caps: bool, num: bool) -> KeyboardState {
    let mut s = KeyboardState::empty();
    s.set(Key::CapsLock, caps);
    s.set(Key::NumLock, num);
    s
}

fn diff(caps: Option<bool>, num: Option<bool>) -> KeyboardStateDiff {
    let mut d = KeyboardStateDiff::empty();
    d.set(Key::CapsLock, caps);
    d.set(Key::NumLock, num);
    d
}

#[test]
fn empty_state_has_no_lock_engaged() {
    let s = KeyboardState::empty();
    assert!(!s.get(Key::CapsLock));
    assert!(!s.get(Key::NumLock));
}

#[test]
fn set_changes_only_its_key() {
    let mut s = KeyboardState::empty();
    s.set(Key::NumLock, true);
    assert!(s.get(Key::NumLock));
    assert!(!s.get(Key::CapsLock));
    s.set(Key::NumLock, false);
    assert!(!s.get(Key::NumLock));
}

#[test]
fn as_diff_sets_every_key() {
    let d = state(true, false).as_diff();
    assert_eq!(d.get(Key::CapsLock), Some(true));
    assert_eq!(d.get(Key::NumLock), Some(false));
}

#[test]
fn apply_reports_only_changed_keys() {
    let mut s = state(false, true);
    let out = s.apply(diff(Some(true), Some(true))).expect("caps lock changed");
    assert_eq!(out.get(Key::CapsLock), Some(true));
    assert_eq!(out.get(Key::NumLock), None);
    assert!(s.get(Key::CapsLock));
    assert!(s.get(Key::NumLock));
}

#[test]
fn apply_of_unchanged_values_reports_nothing() {
    let mut s = state(true, false);
    assert!(s.apply(diff(Some(true), Some(false))).is_none());
    assert!(s.apply(KeyboardStateDiff::empty()).is_none());
    assert!(s.get(Key::CapsLock));
    assert!(!s.get(Key::NumLock));
}

#[test]
fn apply_twice_reports_once() {
    let mut s = KeyboardState::empty();
    let d = diff(None, Some(true));
    assert!(s.apply(d).is_some());
    assert!(s.apply(d).is_none());
    assert!(s.get(Key::NumLock));
}

#[test]
fn applying_full_diff_copies_the_state() {
    let target = state(true, false);
    let mut s = state(false, true);
    let out = s.apply(target.as_diff()).expect("both keys changed");
    assert_eq!(out.get(Key::CapsLock), Some(true));
    assert_eq!(out.get(Key::NumLock), Some(false));
    assert!(s.get(Key::CapsLock));
    assert!(!s.get(Key::NumLock));
}

#[test]
fn bitor_engages_keys_engaged_in_either() {
    let s = state(true, false) | state(false, true);
    assert!(s.get(Key::CapsLock));
    assert!(s.get(Key::NumLock));
    let t = state(false, false) | state(false, false);
    assert!(!t.get(Key::CapsLock));
    assert!(!t.get(Key::NumLock));
    let u = state(true, false) | KeyboardState::empty();
    assert!(u.get(Key::CapsLock));
    assert!(!u.get(Key::NumLock));
}
