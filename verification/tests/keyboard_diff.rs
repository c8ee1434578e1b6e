use kb_mod_monitor::key::Key;
use kb_mod_monitor::keyboard::diff::KeyboardStateDiff;

fn diff(caps: Option<bool>, num: Option<bool>) -> KeyboardStateDiff {
    let mut d = KeyboardStateDiff::empty();
    d.set(Key::CapsLock, caps);
    d.set(Key::NumLock, num);
    d
}

#[test]
fn empty_diff_is_empty() {
    let d = KeyboardStateDiff::empty();
    assert!(d.is_empty());
    assert_eq!(d.get(Key::CapsLock), None);
    assert_eq!(d.get(Key::NumLock), None);
}

#[test]
fn diff_with_an_entry_is_not_empty() {
    assert!(!diff(Some(false), None).is_empty());
    assert!(!diff(None, Some(true)).is_empty());
}

#[test]
fn setting_none_clears_an_entry() {
    let mut d = diff(Some(true), Some(false));
    d.set(Key::CapsLock, None);
    assert_eq!(d.get(Key::CapsLock), None);
    assert_eq!(d.get(Key::NumLock), Some(false));
}

#[test]
fn or_prefers_self_and_falls_back() {
    let d = diff(Some(true), None).or(diff(Some(false), Some(false)));
    assert_eq!(d.get(Key::CapsLock), Some(true));
    assert_eq!(d.get(Key::NumLock), Some(false));
}

#[test]
fn or_with_empty_is_identity() {
    let d = diff(None, Some(true));
    let a = d.or(KeyboardStateDiff::empty());
    let b = KeyboardStateDiff::empty().or(d);
    assert_eq!(a.get(Key::CapsLock), None);
    assert_eq!(a.get(Key::NumLock), Some(true));
    assert_eq!(b.get(Key::CapsLock), None);
    assert_eq!(b.get(Key::NumLock), Some(true));
}

#[test]
fn or_is_associative_on_an_example() {
    let a = diff(Some(true), None);
    let b = diff(Some(false), Some(true));
    let c = diff(None, Some(false));
    let left = a.or(b).or(c);
    let right = a.or(b.or(c));
    assert_eq!(left.get(Key::CapsLock), right.get(Key::CapsLock));
    assert_eq!(left.get(Key::NumLock), right.get(Key::NumLock));
    assert_eq!(left.get(Key::CapsLock), Some(true));
    assert_eq!(left.get(Key::NumLock), Some(true));
}

#[test]
fn bitor_assign_prefers_rhs() {
    let mut d = diff(Some(true), Some(true));
    d |= diff(Some(false), None);
    assert_eq!(d.get(Key::CapsLock), Some(false));
    assert_eq!(d.get(Key::NumLock), Some(true));
}
