use kb_mod_monitor::key::Key;
use kb_mod_monitor::keyboard::state::KeyboardState;
use kb_mod_monitor::xkb_state::callbacks::XkbCallbacks;
use kb_mod_monitor::keyboard::drain_events;
use kb_mod_monitor::xkb_state::{
    Dir, MOD_INVALID, XkbError, XkbKeyUpdate, XkbMachine, initial_locked_mods, locked_mods_mask,
    mod_index_from_raw, on_mod_toggle, set_initial_state,
};

#[test]
fn toggle_update_names_keycode_direction_and_modifier() {
    let u = on_mod_toggle(Key::CapsLock, Dir::Down);
    assert_eq!(u.keycode, 66);
    assert_eq!(u.direction, Dir::Down);
    assert_eq!(u.modifier, "Lock");
    let u = on_mod_toggle(Key::NumLock, Dir::Up);
    assert_eq!(u.keycode, 77);
    assert_eq!(u.direction, Dir::Up);
    assert_eq!(u.modifier, "Mod2");
}

#[test]
fn dispatch_picks_the_update_of_key_and_direction() {
    let c = XkbCallbacks::new();
    for key in [Key::CapsLock, Key::NumLock] {
        for dir in [Dir::Up, Dir::Down] {
            let u = c.dispatch(key, dir);
            let expected = on_mod_toggle(key, dir);
            assert_eq!(u.keycode, expected.keycode);
            assert_eq!(u.direction, dir);
            assert_eq!(u.modifier, expected.modifier);
        }
    }
}

#[test]
fn mod_invalid_means_no_modifier() {
    assert_eq!(mod_index_from_raw(MOD_INVALID), None);
    assert_eq!(mod_index_from_raw(0xffff_ffff), None);
    assert_eq!(mod_index_from_raw(1), Some(1));
    assert_eq!(mod_index_from_raw(0), Some(0));
}

#[test]
fn mask_has_bits_of_engaged_keys() {
    let mut s = KeyboardState::empty();
    s.set(Key::CapsLock, true);
    assert_eq!(locked_mods_mask(Some(1), Some(4), s), 0b10);
    s.set(Key::NumLock, true);
    assert_eq!(locked_mods_mask(Some(1), Some(4), s), 0b10010);
    assert_eq!(locked_mods_mask(None, Some(4), s), 0b10000);
    assert_eq!(locked_mods_mask(None, None, s), 0);
    assert_eq!(locked_mods_mask(Some(1), Some(4), KeyboardState::empty()), 0);
}

#[test]
fn initial_mask_from_raw_indices() {
    let mut s = KeyboardState::empty();
    s.set(Key::CapsLock, true);
    s.set(Key::NumLock, true);
    assert_eq!(initial_locked_mods(1, 4, s), Ok(0b10010));
    assert_eq!(initial_locked_mods(MOD_INVALID, 4, s), Ok(0b10000));
    assert_eq!(initial_locked_mods(31, MOD_INVALID, s), Ok(1 << 31));
}

#[test]
fn index_beyond_mask_is_an_error() {
    let s = KeyboardState::empty();
    assert_eq!(initial_locked_mods(32, 4, s), Err(XkbError::ModIndexOutOfRange(Key::CapsLock)));
    assert_eq!(initial_locked_mods(1, 40, s), Err(XkbError::ModIndexOutOfRange(Key::NumLock)));
}

/// A stand-in for XKB: a lock modifier toggles on each press of its key.
#[derive(Default)]
struct ToggleMachine {
    caps: bool,
    num: bool,
    fed: Vec<(u32, Dir, &'static str)>,
    caps_index: u32,
    num_index: u32,
    locked_mods: Option<u32>,
}

impl XkbMachine for ToggleMachine {
    fn run(&mut self, update: XkbKeyUpdate) -> bool {
        self.fed.push((update.keycode, update.direction, update.modifier));
        let lock = if update.modifier == "Lock" { &mut self.caps } else { &mut self.num };
        if update.direction == Dir::Down {
            *lock = !*lock;
        }
        *lock
    }

    fn mod_index(&self, name: &'static str) -> u32 {
        if name == "Lock" { self.caps_index } else { self.num_index }
    }

    fn set_locked_mods(&mut self, mask: u32) {
        self.locked_mods = Some(mask);
    }
}

#[test]
fn drained_events_feed_xkb_in_order() {
    let events = vec![
        (1, 58, 1), // Caps Lock press
        (0, 0, 0),  // sync
        (1, 58, 0), // Caps Lock release
        (1, 30, 1), // A press
        (1, 69, 1), // Num Lock press
        (1, 69, 2), // Num Lock repeat
        (1, 69, 0), // Num Lock release
        (1, 58, 1), // Caps Lock press
    ];
    let mut xkb = ToggleMachine::default();
    let d = drain_events(&events, &XkbCallbacks::new(), &mut xkb);
    assert_eq!(
        xkb.fed,
        vec![
            (66, Dir::Down, "Lock"),
            (66, Dir::Up, "Lock"),
            (77, Dir::Down, "Mod2"),
            (77, Dir::Up, "Mod2"),
            (66, Dir::Down, "Lock"),
        ]
    );
    assert_eq!(d.get(Key::CapsLock), Some(false));
    assert_eq!(d.get(Key::NumLock), Some(true));
}

#[test]
fn no_lock_key_events_give_the_empty_diff() {
    let mut xkb = ToggleMachine::default();
    let d = drain_events(&vec![(1, 30, 1), (2, 0, 5)], &XkbCallbacks::new(), &mut xkb);
    assert!(d.is_empty());
    assert!(xkb.fed.is_empty());
}

#[test]
fn initial_state_locks_engaged_modifiers() {
    let mut s = KeyboardState::empty();
    s.set(Key::CapsLock, true);
    let mut xkb = ToggleMachine { caps_index: 1, num_index: 4, ..Default::default() };
    assert_eq!(set_initial_state(&mut xkb, s), Ok(()));
    assert_eq!(xkb.locked_mods, Some(0b10));
}

#[test]
fn initial_state_with_out_of_range_index_sets_nothing() {
    let mut xkb = ToggleMachine { caps_index: 40, num_index: 4, ..Default::default() };
    assert_eq!(
        set_initial_state(&mut xkb, KeyboardState::empty()),
        Err(XkbError::ModIndexOutOfRange(Key::CapsLock))
    );
    assert_eq!(xkb.locked_mods, None);
}
