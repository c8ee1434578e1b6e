use vstd::prelude::*;

verus! {

/// A lock key whose state the monitor follows.
#[derive(Debug, Clone, Copy, PartialEq, Eq, Structural)]
pub enum Key {
    CapsLock,
    NumLock,
}

/// Distance between a Linux input keycode and the XKB keycode of the same key.
pub const XKB_EVDEV_OFFSET: u16 = 8;

/// Linux input code of Caps Lock (`KEY_CAPSLOCK`).
pub open spec fn evdev_caps_lock_code() -> u16 {
    58
}

/// Linux input code of Num Lock (`KEY_NUMLOCK`).
pub open spec fn evdev_num_lock_code() -> u16 {
    69
}

/// Calls `evdev::KeyCode::KEY_CAPSLOCK.code()`; evdev's scancode table defines
/// `KEY_CAPSLOCK = 58` and `code` returns the wrapped number.
#[verifier::external_body]
fn caps_lock_scancode() -> (code: u16)
    ensures
        code == evdev_caps_lock_code(),
{
    evdev::KeyCode::KEY_CAPSLOCK.code()
}

/// Calls `evdev::KeyCode::KEY_NUMLOCK.code()`; evdev's scancode table defines
/// `KEY_NUMLOCK = 69` and `code` returns the wrapped number.
#[verifier::external_body]
fn num_lock_scancode() -> (code: u16)
    ensures
        code == evdev_num_lock_code(),
{
    evdev::KeyCode::KEY_NUMLOCK.code()
}

impl Key {
    /// The Linux input code of the key.
    pub open spec fn evdev_code(self) -> u16 {
        match self {
            Key::CapsLock => evdev_caps_lock_code(),
            Key::NumLock => evdev_num_lock_code(),
        }
    }

    /// The XKB keycode of the key: its Linux input code shifted by the evdev offset.
    pub open spec fn spec_xkb_key_code(self) -> u32 {
        (self.evdev_code() + XKB_EVDEV_OFFSET) as u32
    }

    /// The name XKB gives the key's modifier.
    pub open spec fn spec_xkb_mod_name(self) -> Seq<char> {
        match self {
            Key::CapsLock => "Lock"@,
            Key::NumLock => "Mod2"@,
        }
    }

    /// The key that a Linux input code stands for, if it is one of the lock keys.
    pub open spec fn spec_from_evdev_keycode(keycode: u16) -> Option<Key> {
        if keycode == evdev_caps_lock_code() {
            Some(Key::CapsLock)
        } else if keycode == evdev_num_lock_code() {
            Some(Key::NumLock)
        } else {
            None
        }
    }

    /// The XKB keycode of the key, as XKB numbers keys coming from evdev.
    pub fn xkb_key_code(self) -> (code: u32)
        ensures
            code == self.spec_xkb_key_code(),
    {
        let evdev_code = match self {
            Key::CapsLock => caps_lock_scancode(),
            Key::NumLock => num_lock_scancode(),
        };
        (evdev_code + XKB_EVDEV_OFFSET) as u32
    }

    /// The name of the key's modifier in XKB keymaps (libxkbcommon's
    /// `XKB_MOD_NAME_CAPS` and `XKB_MOD_NAME_NUM`).
    pub fn xkb_mod_name(self) -> (name: &'static str)
        ensures
            name@ == self.spec_xkb_mod_name(),
    {
        match self {
            Key::CapsLock => "Lock",
            Key::NumLock => "Mod2",
        }
    }

    /// Recognises the lock keys among Linux input keycodes.
    pub fn from_evdev_keycode(keycode: u16) -> (key: Option<Key>)
        ensures
            key == Key::spec_from_evdev_keycode(keycode),
    {
        if keycode == caps_lock_scancode() {
            Some(Key::CapsLock)
        } else if keycode == num_lock_scancode() {
            Some(Key::NumLock)
        } else {
            None
        }
    }
}

/// Law: a lock key is recognised again from its own Linux input code.
pub proof fn lemma_keycode_roundtrip(key: Key)
    ensures
        Key::spec_from_evdev_keycode(key.evdev_code()) == Some(key),
{
}

/// Law: the two lock keys have distinct XKB keycodes.
pub proof fn lemma_xkb_key_codes_distinct(a: Key, b: Key)
    requires
        a != b,
    ensures
        a.spec_xkb_key_code() != b.spec_xkb_key_code(),
{
}

} // verus!
