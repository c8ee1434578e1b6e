use vstd::prelude::*;

use crate::key::Key;
use crate::xkb_state::{Dir, XkbKeyUpdate, on_mod_toggle, spec_mod_toggle};

verus! {

/// The four XKB updates that presses and releases of the lock keys make, one
/// per key and direction.
#[derive(Debug, Clone, Copy)]
pub struct XkbCallbacks {
    caps_lock_press: XkbKeyUpdate,
    caps_lock_release: XkbKeyUpdate,
    num_lock_press: XkbKeyUpdate,
    num_lock_release: XkbKeyUpdate,
}

impl XkbCallbacks {
    /// Each of the four updates is the one for its key and direction.
    #[verifier::type_invariant]
    spec fn wf(self) -> bool {
        &&& spec_mod_toggle(Key::CapsLock, Dir::Down, self.caps_lock_press)
        &&& spec_mod_toggle(Key::CapsLock, Dir::Up, self.caps_lock_release)
        &&& spec_mod_toggle(Key::NumLock, Dir::Down, self.num_lock_press)
        &&& spec_mod_toggle(Key::NumLock, Dir::Up, self.num_lock_release)
    }

    /// The update that these callbacks hold for `key` moving in direction `dir`.
    pub closed spec fn update_for(self, key: Key, dir: Dir) -> XkbKeyUpdate {
        match (key, dir) {
            (Key::CapsLock, Dir::Up) => self.caps_lock_release,
            (Key::CapsLock, Dir::Down) => self.caps_lock_press,
            (Key::NumLock, Dir::Up) => self.num_lock_release,
            (Key::NumLock, Dir::Down) => self.num_lock_press,
        }
    }

    /// The updates for both lock keys in both directions.
    pub fn new() -> (c: Self)
        ensures
            forall|key: Key, dir: Dir| spec_mod_toggle(key, dir, #[trigger] c.update_for(key, dir)),
    {
        Self {
            caps_lock_press: on_mod_toggle(Key::CapsLock, Dir::Down),
            caps_lock_release: on_mod_toggle(Key::CapsLock, Dir::Up),
            num_lock_press: on_mod_toggle(Key::NumLock, Dir::Down),
            num_lock_release: on_mod_toggle(Key::NumLock, Dir::Up),
        }
    }

    /// The XKB update for `key` moving in direction `dir`.
    pub fn dispatch(&self, key: Key, dir: Dir) -> (update: XkbKeyUpdate)
        ensures
            update == self.update_for(key, dir),
            spec_mod_toggle(key, dir, update),
    {
        proof {
            use_type_invariant(self);
        }
        match (key, dir) {
            (Key::CapsLock, Dir::Up) => self.caps_lock_release,
            (Key::CapsLock, Dir::Down) => self.caps_lock_press,
            (Key::NumLock, Dir::Up) => self.num_lock_release,
            (Key::NumLock, Dir::Down) => self.num_lock_press,
        }
    }
}

} // verus!
