use kb_mod_monitor::key::Key;
use kb_mod_monitor::keyboard::state::KeyboardState;
use kb_mod_monitor::keyboard::{
    combined_state, fold_lock_answers, is_keyboard, key_event, led_based_state,
};
use kb_mod_monitor::xkb_state::Dir;

#[test]
fn lock_keys_are_recognised_by_evdev_code() {
    assert_eq!(Key::from_evdev_keycode(58), Some(Key::CapsLock));
    assert_eq!(Key::from_evdev_keycode(69), Some(Key::NumLock));
    assert_eq!(Key::from_evdev_keycode(30), None);
    assert_eq!(Key::from_evdev_keycode(0), None);
}

#[test]
fn keycodes_agree_with_evdev() {
    assert_eq!(Key::from_evdev_keycode(evdev::KeyCode::KEY_CAPSLOCK.code()), Some(Key::CapsLock));
    assert_eq!(Key::from_evdev_keycode(evdev::KeyCode::KEY_NUMLOCK.code()), Some(Key::NumLock));
}

#[test]
fn xkb_keycodes_are_offset_by_eight() {
    assert_eq!(Key::CapsLock.xkb_key_code(), 66);
    assert_eq!(Key::NumLock.xkb_key_code(), 77);
}

#[test]
fn xkb_modifier_names() {
    assert_eq!(Key::CapsLock.xkb_mod_name(), "Lock");
    assert_eq!(Key::NumLock.xkb_mod_name(), "Mod2");
}

#[test]
fn press_and_release_of_lock_keys_are_key_events() {
    assert_eq!(key_event(1, 58, 1), Some((Key::CapsLock, Dir::Down)));
    assert_eq!(key_event(1, 58, 0), Some((Key::CapsLock, Dir::Up)));
    assert_eq!(key_event(1, 69, 1), Some((Key::NumLock, Dir::Down)));
    assert_eq!(key_event(1, 69, 0), Some((Key::NumLock, Dir::Up)));
}

#[test]
fn repeats_other_keys_and_other_types_are_ignored() {
    assert_eq!(key_event(1, 58, 2), None);
    assert_eq!(key_event(1, 30, 1), None);
    assert_eq!(key_event(0, 58, 1), None);
    assert_eq!(key_event(evdev::EventType::LED.0, 58, 1), None);
    assert_eq!(key_event(evdev::EventType::KEY.0, 58, 1), Some((Key::CapsLock, Dir::Down)));
}

#[test]
fn keyboard_needs_space_a_and_z() {
    assert!(is_keyboard(Some(&[1, 57, 30, 44, 58])));
    assert!(!is_keyboard(Some(&[57, 30])));
    assert!(!is_keyboard(Some(&[])));
    assert!(!is_keyboard(None));
}

#[test]
fn led_state_follows_lit_leds() {
    let s = led_based_state(Some(&[1]));
    assert!(s.get(Key::CapsLock));
    assert!(!s.get(Key::NumLock));
    let s = led_based_state(Some(&[0, 1]));
    assert!(s.get(Key::CapsLock));
    assert!(s.get(Key::NumLock));
    let s = led_based_state(Some(&[evdev::LedCode::LED_NUML.0]));
    assert!(!s.get(Key::CapsLock));
    assert!(s.get(Key::NumLock));
}

#[test]
fn unreadable_leds_give_the_empty_state() {
    let s = led_based_state(None);
    assert!(!s.get(Key::CapsLock));
    assert!(!s.get(Key::NumLock));
}

#[test]
fn combined_state_is_engaged_when_any_keyboard_is() {
    let mut a = KeyboardState::empty();
    a.set(Key::CapsLock, true);
    let mut b = KeyboardState::empty();
    b.set(Key::NumLock, true);
    let s = combined_state(&[a, b, KeyboardState::empty()]);
    assert!(s.get(Key::CapsLock));
    assert!(s.get(Key::NumLock));
    let none = combined_state(&[]);
    assert!(!none.get(Key::CapsLock));
    assert!(!none.get(Key::NumLock));
}

#[test]
fn last_answer_per_key_wins() {
    let d = fold_lock_answers(&[
        (Key::CapsLock, true),
        (Key::NumLock, true),
        (Key::CapsLock, false),
    ]);
    assert_eq!(d.get(Key::CapsLock), Some(false));
    assert_eq!(d.get(Key::NumLock), Some(true));
    let d = fold_lock_answers(&[(Key::NumLock, false)]);
    assert_eq!(d.get(Key::CapsLock), None);
    assert_eq!(d.get(Key::NumLock), Some(false));
    assert!(fold_lock_answers(&[]).is_empty());
}
