pub mod callbacks;

use vstd::prelude::*;

use crate::key::Key;
use crate::keyboard::state::KeyboardState;

verus! {

/// Which way a key moved.
#[derive(Debug, Clone, Copy, PartialEq, Eq, Structural)]
pub enum Dir {
    Up,
    Down,
}

/// libxkbcommon's answer for a modifier that a keymap does not have
/// (`XKB_MOD_INVALID`).
pub const MOD_INVALID: u32 = 0xffff_ffff;

/// Why the initial lock state cannot be handed to XKB.
#[derive(Debug, Clone, Copy, PartialEq, Eq, Structural)]
pub enum XkbError {
    /// The keymap gives the modifier of this key an index that a 32-bit
    /// modifier mask cannot hold.
    ModIndexOutOfRange(Key),
}

/// One update of the XKB state: feed the key with this keycode moving in this
/// direction, then read whether the named modifier is locked.
#[derive(Debug, Clone, Copy)]
pub struct XkbKeyUpdate {
    pub keycode: u32,
    pub direction: Dir,
    pub modifier: &'static str,
}

/// The update that a press or release of `key` makes.
pub open spec fn spec_mod_toggle(key: Key, dir: Dir, update: XkbKeyUpdate) -> bool {
    &&& update.keycode == key.spec_xkb_key_code()
    &&& update.direction == dir
    &&& update.modifier@ == key.spec_xkb_mod_name()
}

/// The update of the XKB state for a press (`Dir::Down`) or release
/// (`Dir::Up`) of `key`: its XKB keycode, the direction, and the name of the
/// modifier that tells whether the key is locked.
pub fn on_mod_toggle(key: Key, dir: Dir) -> (update: XkbKeyUpdate)
    ensures
        spec_mod_toggle(key, dir, update),
{
    XkbKeyUpdate { keycode: key.xkb_key_code(), direction: dir, modifier: key.xkb_mod_name() }
}

/// The modifier index that an answer of libxkbcommon's `mod_get_index`
/// stands for: none for `MOD_INVALID`.
pub open spec fn spec_mod_index(raw: u32) -> Option<u32> {
    if raw == MOD_INVALID {
        None
    } else {
        Some(raw)
    }
}

/// Whether an optional modifier index fits in a 32-bit mask.
pub open spec fn fits_mask(index: Option<u32>) -> bool {
    match index {
        Some(i) => i < 32,
        None => true,
    }
}

/// The mask bit that a key contributes: the bit of its modifier when the key
/// is engaged and the keymap has the modifier, else nothing.
pub open spec fn mask_bit(index: Option<u32>, engaged: bool) -> u32 {
    match index {
        Some(i) => if engaged {
            (1u32 << i) as u32
        } else {
            0
        },
        None => 0,
    }
}

/// The locked-modifier mask that puts XKB in the lock state `state`.
pub open spec fn spec_locked_mods(
    caps_index: Option<u32>,
    num_index: Option<u32>,
    state: Map<Key, bool>,
) -> u32 {
    mask_bit(caps_index, state[Key::CapsLock]) | mask_bit(num_index, state[Key::NumLock])
}

/// What `initial_locked_mods` answers for the raw modifier indices of Caps Lock
/// and Num Lock.
pub open spec fn spec_initial_locked_mods(caps_raw: u32, num_raw: u32, state: Map<Key, bool>) -> Result<
    u32,
    XkbError,
> {
    if !fits_mask(spec_mod_index(caps_raw)) {
        Err(XkbError::ModIndexOutOfRange(Key::CapsLock))
    } else if !fits_mask(spec_mod_index(num_raw)) {
        Err(XkbError::ModIndexOutOfRange(Key::NumLock))
    } else {
        Ok(spec_locked_mods(spec_mod_index(caps_raw), spec_mod_index(num_raw), state))
    }
}

/// Reads an answer of `mod_get_index`: `MOD_INVALID` means the keymap has no
/// such modifier.
pub fn mod_index_from_raw(raw: u32) -> (index: Option<u32>)
    ensures
        index == spec_mod_index(raw),
{
    if raw == MOD_INVALID {
        None
    } else {
        Some(raw)
    }
}

/// The locked-modifier mask for `kb_state`, given the indices that the keymap
/// gives the modifiers of Caps Lock and Num Lock.
pub fn locked_mods_mask(caps_index: Option<u32>, num_index: Option<u32>, kb_state: KeyboardState) -> (mask: u32)
    requires
        fits_mask(caps_index),
        fits_mask(num_index),
    ensures
        mask == spec_locked_mods(caps_index, num_index, kb_state@),
{
    let mut locked_mods: u32 = 0;
    match caps_index {
        Some(idx) => {
            if kb_state.get(Key::CapsLock) {
                locked_mods = locked_mods | (1u32 << idx);
            }
        },
        None => {},
    }
    match num_index {
        Some(idx) => {
            if kb_state.get(Key::NumLock) {
                locked_mods = locked_mods | (1u32 << idx);
            }
        },
        None => {},
    }
    assert(locked_mods == spec_locked_mods(caps_index, num_index, kb_state@)) by {
        let a = mask_bit(caps_index, kb_state@[Key::CapsLock]);
        assert(0u32 | a == a) by (bit_vector);
        assert(a | 0u32 == a) by (bit_vector);
    }
    locked_mods
}

/// The locked-modifier mask that tells XKB the initial lock state `kb_state`,
/// from the raw answers of `mod_get_index` for the modifiers of Caps Lock and
/// Num Lock. Fails when an index is too large for a 32-bit mask.
pub fn initial_locked_mods(caps_raw: u32, num_raw: u32, kb_state: KeyboardState) -> (r: Result<u32, XkbError>)
    ensures
        r == spec_initial_locked_mods(caps_raw, num_raw, kb_state@),
{
    let caps_index = mod_index_from_raw(caps_raw);
    let num_index = mod_index_from_raw(num_raw);
    match caps_index {
        Some(i) => if i >= 32 {
            return Err(XkbError::ModIndexOutOfRange(Key::CapsLock));
        },
        None => {},
    }
    match num_index {
        Some(i) => if i >= 32 {
            return Err(XkbError::ModIndexOutOfRange(Key::NumLock));
        },
        None => {},
    }
    Ok(locked_mods_mask(caps_index, num_index, kb_state))
}

/// An XKB keyboard state that the library drives; the program implements it on
/// libxkbcommon's state. No clause is promised of its answers: they rest on
/// the keymap and on every key move fed in before.
pub trait XkbMachine {
    /// Feeds the key move of `update` into the state and answers whether the
    /// update's modifier is locked afterwards.
    fn run(&mut self, update: XkbKeyUpdate) -> bool;

    /// The index of the modifier named `name` in the state's keymap, or
    /// `MOD_INVALID` when the keymap has no such modifier.
    fn mod_index(&self, name: &'static str) -> u32;

    /// Sets the locked modifiers to `mask`, with none depressed or latched.
    fn set_locked_mods(&mut self, mask: u32);
}

/// What `set_initial_state` answers when the keymap gives the modifiers of
/// Caps Lock and Num Lock the raw indices `caps_raw` and `num_raw`.
pub open spec fn spec_initial_outcome(caps_raw: u32, num_raw: u32, state: Map<Key, bool>) -> Result<
    (),
    XkbError,
> {
    match spec_initial_locked_mods(caps_raw, num_raw, state) {
        Ok(_) => Ok(()),
        Err(e) => Err(e),
    }
}

/// Tells the XKB state `xkb` which lock keys are engaged: looks up the
/// modifiers of Caps Lock and Num Lock in its keymap and locks those of the
/// engaged keys. Fails, setting nothing, when an index is too large for a
/// 32-bit mask.
///
/// The indices are those the machine's `mod_index` answers for the names of
/// the two modifiers, and on success the machine's `set_locked_mods` is run
/// once, with the mask of those indices for `kb_state`.
pub fn set_initial_state<X: XkbMachine>(xkb: &mut X, kb_state: KeyboardState) -> (r: Result<(), XkbError>)
    ensures
        exists|caps_raw: u32, num_raw: u32|
            r == #[trigger] spec_initial_outcome(caps_raw, num_raw, kb_state@),
        exists|caps_raw: u32, num_raw: u32, caps_name: &'static str, num_name: &'static str|
            #![trigger spec_initial_outcome(caps_raw, num_raw, kb_state@), caps_name@, num_name@]
            {
                &&& caps_name@ == Key::CapsLock.spec_xkb_mod_name()
                &&& num_name@ == Key::NumLock.spec_xkb_mod_name()
                &&& call_ensures(X::mod_index, (&*old(xkb), caps_name), caps_raw)
                &&& call_ensures(X::mod_index, (&*old(xkb), num_name), num_raw)
                &&& r == spec_initial_outcome(caps_raw, num_raw, kb_state@)
                &&& match spec_initial_locked_mods(caps_raw, num_raw, kb_state@) {
                    Ok(mask) => exists|m: &mut X|
                        #![trigger call_ensures(X::set_locked_mods, (m, mask), ())]
                        mut_ref_current(m) == *old(xkb) && mut_ref_future(m) == *final(xkb)
                            && call_ensures(X::set_locked_mods, (m, mask), ()),
                    Err(_) => *final(xkb) == *old(xkb),
                }
            },
{
    let caps_raw = xkb.mod_index(Key::CapsLock.xkb_mod_name());
    let num_raw = xkb.mod_index(Key::NumLock.xkb_mod_name());
    let r = match initial_locked_mods(caps_raw, num_raw, kb_state) {
        Ok(mask) => {
            xkb.set_locked_mods(mask);
            Ok(())
        },
        Err(e) => Err(e),
    };
    assert(r == spec_initial_outcome(caps_raw, num_raw, kb_state@));
    r
}

/// Law: in the locked-modifier mask, bit `bit` is set exactly when an engaged
/// key has its modifier at index `bit`.
pub proof fn lemma_locked_mods_bits(
    caps_index: Option<u32>,
    num_index: Option<u32>,
    state: Map<Key, bool>,
    bit: u32,
)
    requires
        fits_mask(caps_index),
        fits_mask(num_index),
        bit < 32,
    ensures
        (spec_locked_mods(caps_index, num_index, state) >> bit) & 1u32 == 1u32 <==> ((caps_index
            == Some(bit) && state[Key::CapsLock]) || (num_index == Some(bit)
            && state[Key::NumLock])),
{
    let a = mask_bit(caps_index, state[Key::CapsLock]);
    let b = mask_bit(num_index, state[Key::NumLock]);
    let ca = if caps_index is Some {
        caps_index->0
    } else {
        0u32
    };
    let nb = if num_index is Some {
        num_index->0
    } else {
        0u32
    };
    assert(forall|x: u32, y: u32, z: u32|
        #![trigger (x | y) >> z]
        z < 32 ==> (((x | y) >> z) & 1u32 == 1u32 <==> ((x >> z) & 1u32 == 1u32 || (y >> z)
            & 1u32 == 1u32))) by (bit_vector);
    assert(forall|x: u32, z: u32|
        #![trigger (1u32 << x) >> z]
        x < 32 && z < 32 ==> (((1u32 << x) >> z) & 1u32 == 1u32 <==> x == z)) by (bit_vector);
    assert(forall|z: u32| #![trigger 0u32 >> z] z < 32 ==> (0u32 >> z) & 1u32 != 1u32)
        by (bit_vector);
    assert(((a | b) >> bit) & 1u32 == 1u32 <==> ((a >> bit) & 1u32 == 1u32 || (b >> bit) & 1u32
        == 1u32));
    if a != 0u32 {
        assert((((1u32 << ca) >> bit) & 1u32 == 1u32) <==> ca == bit);
    } else {
        assert((0u32 >> bit) & 1u32 != 1u32);
    }
    if b != 0u32 {
        assert((((1u32 << nb) >> bit) & 1u32 == 1u32) <==> nb == bit);
    } else {
        assert((0u32 >> bit) & 1u32 != 1u32);
    }
}

} // verus!
