use kb_mod_monitor::client::{SendError, change_message, check_sent, encode_diff, greeting};
use kb_mod_monitor::key::Key;
use kb_mod_monitor::keyboard::diff::KeyboardStateDiff;
use kb_mod_monitor::keyboard::state::KeyboardState;

fn diff(caps: Option<bool>, num: Option<bool>) -> KeyboardStateDiff {
    let mut d = KeyboardStateDiff::empty();
    d.set(Key::CapsLock, caps);
    d.set(Key::NumLock, num);
    d
}

#[test]
fn each_change_is_one_ascii_digit() {
    assert_eq!(encode_diff(diff(Some(false), None)), b"0".to_vec());
    assert_eq!(encode_diff(diff(Some(true), None)), b"1".to_vec());
    assert_eq!(encode_diff(diff(None, Some(false))), b"2".to_vec());
    assert_eq!(encode_diff(diff(None, Some(true))), b"3".to_vec());
}

#[test]
fn caps_lock_comes_before_num_lock() {
    assert_eq!(encode_diff(diff(Some(true), Some(false))), b"12".to_vec());
    assert_eq!(encode_diff(diff(Some(false), Some(true))), b"03".to_vec());
}

#[test]
fn empty_diff_encodes_to_nothing() {
    assert!(encode_diff(KeyboardStateDiff::empty()).is_empty());
}

#[test]
fn new_client_is_greeted_with_the_current_state() {
    let mut s = KeyboardState::empty();
    assert_eq!(greeting(s), b"02".to_vec());
    s.set(Key::CapsLock, true);
    s.set(Key::NumLock, true);
    assert_eq!(greeting(s), b"13".to_vec());
}

#[test]
fn change_message_carries_only_changes() {
    let mut s = KeyboardState::empty();
    s.set(Key::NumLock, true);
    let msg = change_message(&mut s, diff(Some(true), Some(true)));
    assert_eq!(msg, Some(b"1".to_vec()));
    assert!(s.get(Key::CapsLock));
    assert!(s.get(Key::NumLock));
    assert_eq!(change_message(&mut s, diff(Some(true), None)), None);
    assert_eq!(change_message(&mut s, diff(Some(false), Some(false))), Some(b"02".to_vec()));
    assert!(!s.get(Key::CapsLock));
    assert!(!s.get(Key::NumLock));
}

#[test]
fn full_send_is_accepted() {
    let msg = b"13".to_vec();
    assert_eq!(check_sent(2, &msg), Ok(()));
}

#[test]
fn short_send_is_an_error() {
    let msg = b"13".to_vec();
    assert_eq!(check_sent(1, &msg), Err(SendError::ShortWrite { written: 1, expected: 2 }));
}

fn read(belief: &mut (bool, bool), message: &[u8]) {
    for b in message {
        match b {
            b'0' => belief.0 = false,
            b'1' => belief.0 = true,
            b'2' => belief.1 = false,
            b'3' => belief.1 = true,
            _ => panic!("unexpected byte {b}"),
        }
    }
}

#[test]
fn client_reading_greeting_and_changes_tracks_the_state() {
    let mut s = KeyboardState::empty();
    s.set(Key::NumLock, true);
    let mut belief = (true, false);
    read(&mut belief, &greeting(s));
    assert_eq!(belief, (false, true));
    for d in [
        diff(Some(true), None),
        diff(Some(true), Some(false)),
        diff(None, None),
        diff(Some(false), Some(true)),
    ] {
        if let Some(msg) = change_message(&mut s, d) {
            read(&mut belief, &msg);
        }
        assert_eq!(belief, (s.get(Key::CapsLock), s.get(Key::NumLock)));
    }
}
