pub mod diff;
pub mod state;

use vstd::prelude::*;

use crate::key::Key;
use crate::keyboard::diff::KeyboardStateDiff;
use crate::keyboard::state::{KeyboardState, all_released, either_engaged};
use crate::xkb_state::callbacks::XkbCallbacks;
use crate::xkb_state::{Dir, XkbMachine};
use vstd::std_specs::ops::BitOrSpec;

verus! {

/// Linux input event type of key events (`EV_KEY`).
pub open spec fn evdev_key_event_type() -> u16 {
    1
}

/// Linux input code of the space bar (`KEY_SPACE`).
pub open spec fn evdev_space_code() -> u16 {
    57
}

/// Linux input code of the A key (`KEY_A`).
pub open spec fn evdev_a_code() -> u16 {
    30
}

/// Linux input code of the Z key (`KEY_Z`).
pub open spec fn evdev_z_code() -> u16 {
    44
}

/// Linux code of the Caps Lock LED (`LED_CAPSL`).
pub open spec fn evdev_caps_lock_led() -> u16 {
    1
}

/// Linux code of the Num Lock LED (`LED_NUML`).
pub open spec fn evdev_num_lock_led() -> u16 {
    0
}

/// Reads `evdev::EventType::KEY`, defined by evdev as `EventType(0x01)`.
#[verifier::external_body]
fn key_event_type() -> (t: u16)
    ensures
        t == evdev_key_event_type(),
{
    evdev::EventType::KEY.0
}

/// Calls `evdev::KeyCode::KEY_SPACE.code()`; evdev defines `KEY_SPACE = 57`.
#[verifier::external_body]
fn space_scancode() -> (code: u16)
    ensures
        code == evdev_space_code(),
{
    evdev::KeyCode::KEY_SPACE.code()
}

/// Calls `evdev::KeyCode::KEY_A.code()`; evdev defines `KEY_A = 30`.
#[verifier::external_body]
fn a_scancode() -> (code: u16)
    ensures
        code == evdev_a_code(),
{
    evdev::KeyCode::KEY_A.code()
}

/// Calls `evdev::KeyCode::KEY_Z.code()`; evdev defines `KEY_Z = 44`.
#[verifier::external_body]
fn z_scancode() -> (code: u16)
    ensures
        code == evdev_z_code(),
{
    evdev::KeyCode::KEY_Z.code()
}

/// Reads `evdev::LedCode::LED_CAPSL`, defined by evdev as `LedCode(0x01)`.
#[verifier::external_body]
fn caps_lock_led() -> (code: u16)
    ensures
        code == evdev_caps_lock_led(),
{
    evdev::LedCode::LED_CAPSL.0
}

/// Reads `evdev::LedCode::LED_NUML`, defined by evdev as `LedCode(0x00)`.
#[verifier::external_body]
fn num_lock_led() -> (code: u16)
    ensures
        code == evdev_num_lock_led(),
{
    evdev::LedCode::LED_NUML.0
}

/// The lock key move that an input event reports, if any: a key event
/// (`EV_KEY`) of a lock key with value 0 (release) or 1 (press). Repeats and
/// other events report nothing.
pub open spec fn spec_key_event(event_type: u16, code: u16, value: i32) -> Option<(Key, Dir)> {
    if event_type != evdev_key_event_type() {
        None
    } else {
        match Key::spec_from_evdev_keycode(code) {
            None => None,
            Some(key) => if value == 0 {
                Some((key, Dir::Up))
            } else if value == 1 {
                Some((key, Dir::Down))
            } else {
                None
            },
        }
    }
}

/// Whether a device with these supported keys counts as a keyboard: one with a
/// space bar, an A and a Z.
pub open spec fn spec_is_keyboard(supported_keys: Option<Seq<u16>>) -> bool {
    match supported_keys {
        Some(keys) => keys.contains(evdev_space_code()) && keys.contains(evdev_a_code())
            && keys.contains(evdev_z_code()),
        None => false,
    }
}

/// The lock state that the LEDs of a keyboard show: a key is engaged when its
/// LED is lit. When the LEDs could not be read, no key is engaged.
pub open spec fn spec_led_state(lit: Option<Seq<u16>>) -> Map<Key, bool> {
    match lit {
        Some(leds) => Map::total(
            |k: Key|
                match k {
                    Key::CapsLock => leds.contains(evdev_caps_lock_led()),
                    Key::NumLock => leds.contains(evdev_num_lock_led()),
                },
        ),
        None => all_released(),
    }
}

/// The lock state of several keyboards together: a key is engaged when it is
/// engaged on any of them.
pub open spec fn spec_combined(states: Seq<KeyboardState>) -> Map<Key, bool> {
    Map::total(|k: Key| exists|i: int| 0 <= i < states.len() && (#[trigger] states[i])@[k])
}

/// Whether `code` is among `codes`.
fn contains_code(codes: &[u16], code: u16) -> (found: bool)
    ensures
        found == codes@.contains(code),
{
    let mut i: usize = 0;
    while i < codes.len()
        invariant
            0 <= i <= codes.len(),
            forall|j: int| 0 <= j < i ==> codes@[j] != code,
        decreases codes.len() - i,
    {
        if codes[i] == code {
            return true;
        }
        i = i + 1;
    }
    false
}

/// The lock key move that an input event with this type, code and value
/// reports, if any.
pub fn key_event(event_type: u16, code: u16, value: i32) -> (r: Option<(Key, Dir)>)
    ensures
        r == spec_key_event(event_type, code, value),
{
    if event_type != key_event_type() {
        return None;
    }
    match Key::from_evdev_keycode(code) {
        None => None,
        Some(key) => {
            if value == 0 {
                Some((key, Dir::Up))
            } else if value == 1 {
                Some((key, Dir::Down))
            } else {
                None
            }
        },
    }
}

/// Whether a device with these supported keys (none when it reports no keys)
/// is a keyboard.
pub fn is_keyboard(supported_keys: Option<&[u16]>) -> (b: bool)
    ensures
        b == spec_is_keyboard(
            match supported_keys {
                Some(keys) => Some(keys@),
                None => None,
            },
        ),
{
    match supported_keys {
        Some(keys) => contains_code(keys, space_scancode()) && contains_code(keys, a_scancode())
            && contains_code(keys, z_scancode()),
        None => false,
    }
}

/// The lock state that a keyboard's LEDs show, given the codes of its lit LEDs,
/// or none when they could not be read.
pub fn led_based_state(lit_leds: Option<&[u16]>) -> (s: KeyboardState)
    ensures
        s@ == spec_led_state(
            match lit_leds {
                Some(leds) => Some(leds@),
                None => None,
            },
        ),
{
    match lit_leds {
        None => KeyboardState::empty(),
        Some(leds) => {
            let mut state = KeyboardState::empty();
            state.set(Key::CapsLock, contains_code(leds, caps_lock_led()));
            state.set(Key::NumLock, contains_code(leds, num_lock_led()));
            proof {
                let lit = Some(leds@);
                assert(state@ =~= spec_led_state(lit));
            }
            state
        },
    }
}

/// The lock state of all keyboards together, from the state that each shows.
pub fn combined_state(states: &[KeyboardState]) -> (s: KeyboardState)
    ensures
        s@ == spec_combined(states@),
        forall|i: int, k: Key|
            #![trigger states@[i]@[k]]
            0 <= i < states@.len() && states@[i]@[k] ==> s@[k],
        forall|k: Key|
            #[trigger] s@[k] ==> exists|i: int| 0 <= i < states@.len() && (#[trigger] states@[i])@[k],
{
    let mut combined = KeyboardState::empty();
    let mut i: usize = 0;
    while i < states.len()
        invariant
            0 <= i <= states.len(),
            combined@ == spec_combined(states@.subrange(0, i as int)),
        decreases states.len() - i,
    {
        let next = combined | states[i];
        proof {
            state::lemma_bitor_view(combined, states@[i as int]);
            let before = states@.subrange(0, i as int);
            let after = states@.subrange(0, i + 1);
            assert forall|k: Key| #[trigger] next@[k] == spec_combined(after)[k] by {
                state::lemma_state_total(next, k);
                if spec_combined(after)[k] {
                    let j = choose|j: int| 0 <= j < after.len() && (#[trigger] after[j])@[k];
                    if j < i {
                        assert(before[j] == after[j]);
                    }
                }
                if combined@[k] {
                    let j = choose|j: int| 0 <= j < before.len() && (#[trigger] before[j])@[k];
                    assert(after[j] == before[j]);
                }
                if states@[i as int]@[k] {
                    assert(after[i as int] == states@[i as int]);
                }
            }
            assert(next@ =~= spec_combined(after));
        }
        combined = next;
        i = i + 1;
    }
    assert(states@.subrange(0, states.len() as int) =~= states@);
    proof {
        assert forall|i: int, k: Key|
            #![trigger states@[i]@[k]]
            0 <= i < states@.len() && states@[i]@[k] implies combined@[k] by {
            state::lemma_state_total(combined, k);
        }
    }
    combined
}

/// Law: the lock state of a single keyboard is that keyboard's state.
pub proof fn lemma_combined_single(t: KeyboardState)
    ensures
        spec_combined(seq![t]) == t@,
{
    assert forall|k: Key| #[trigger] spec_combined(seq![t])[k] == t@[k] by {
        state::lemma_state_total(t, k);
        assert(seq![t][0] == t);
    }
    state::lemma_state_covers_keys(t);
    assert(spec_combined(seq![t]) =~= t@);
}

/// Law: adding a keyboard engages, on top of the others, exactly the keys
/// engaged on it, as `|` does.
pub proof fn lemma_combined_push(states: Seq<KeyboardState>, t: KeyboardState)
    ensures
        spec_combined(states.push(t)) == either_engaged(spec_combined(states), t@),
{
    let after = states.push(t);
    assert forall|k: Key| #[trigger] spec_combined(after)[k] == either_engaged(
        spec_combined(states),
        t@,
    )[k] by {
        if spec_combined(after)[k] {
            let j = choose|j: int| 0 <= j < after.len() && (#[trigger] after[j])@[k];
            if j < states.len() {
                assert(after[j] == states[j]);
            }
        }
        if spec_combined(states)[k] {
            let j = choose|j: int| 0 <= j < states.len() && (#[trigger] states[j])@[k];
            assert(after[j] == states[j]);
        }
        if t@[k] {
            assert(after[states.len() as int] == t);
        }
    }
    assert(spec_combined(after) =~= either_engaged(spec_combined(states), t@));
}

/// The diff that a keyboard's drained input amounts to, from the XKB answer to
/// each lock key move in order: each key gets the answer to its last move.
pub open spec fn spec_lock_answers(answers: Seq<(Key, bool)>) -> Map<Key, bool>
    decreases answers.len(),
{
    if answers.len() == 0 {
        Map::empty()
    } else {
        spec_lock_answers(answers.drop_last()).insert(answers.last().0, answers.last().1)
    }
}

/// The diff that a keyboard's drained input amounts to, given, in order, each
/// lock key moved and whether XKB reported its modifier locked afterwards.
pub fn fold_lock_answers(answers: &[(Key, bool)]) -> (d: KeyboardStateDiff)
    ensures
        d@ == spec_lock_answers(answers@),
{
    let mut diff = KeyboardStateDiff::empty();
    let mut i: usize = 0;
    while i < answers.len()
        invariant
            0 <= i <= answers.len(),
            diff@ == spec_lock_answers(answers@.subrange(0, i as int)),
        decreases answers.len() - i,
    {
        let (key, locked) = answers[i];
        diff.set(key, Some(locked));
        proof {
            assert(answers@.subrange(0, i + 1).drop_last() =~= answers@.subrange(0, i as int));
        }
        i = i + 1;
    }
    assert(answers@.subrange(0, answers.len() as int) =~= answers@);
    diff
}

/// Law: in the diff of drained input, a key has an entry exactly when it moved,
/// and its value is the answer to its last move.
pub proof fn lemma_last_answer_wins(answers: Seq<(Key, bool)>, key: Key)
    ensures
        spec_lock_answers(answers).contains_key(key) <==> exists|i: int|
            0 <= i < answers.len() && (#[trigger] answers[i]).0 == key,
        spec_lock_answers(answers).contains_key(key) ==> exists|i: int|
            0 <= i < answers.len() && #[trigger] answers[i] == (key, spec_lock_answers(answers)[key])
                && forall|j: int| i < j < answers.len() ==> (#[trigger] answers[j]).0 != key,
    decreases answers.len(),
{
    if answers.len() > 0 {
        let prefix = answers.drop_last();
        let n = answers.len() - 1;
        lemma_last_answer_wins(prefix, key);
        assert(answers[n] == answers.last());
        if answers.last().0 == key {
            assert(answers[n] == (key, spec_lock_answers(answers)[key]));
        } else {
            if exists|i: int| 0 <= i < answers.len() && (#[trigger] answers[i]).0 == key {
                let i = choose|i: int| 0 <= i < answers.len() && (#[trigger] answers[i]).0 == key;
                assert(prefix[i] == answers[i]);
            }
            if spec_lock_answers(prefix).contains_key(key) {
                let i = choose|i: int|
                    0 <= i < prefix.len() && #[trigger] prefix[i] == (key, spec_lock_answers(
                        prefix,
                    )[key]) && forall|j: int| i < j < prefix.len() ==> (#[trigger] prefix[j]).0
                        != key;
                assert(answers[i] == prefix[i]);
                assert forall|j: int| i < j < answers.len() implies (#[trigger] answers[j]).0
                    != key by {
                    if j < n {
                        assert(answers[j] == prefix[j]);
                    }
                }
            }
            assert forall|i: int| 0 <= i < prefix.len() implies #[trigger] prefix[i] == answers[i] by {}
        }
    }
}

/// The lock keys that a list of input events moves, in order: one entry per
/// event that reports a lock key press or release.
pub open spec fn spec_moved_keys(events: Seq<(u16, u16, i32)>) -> Seq<Key>
    decreases events.len(),
{
    if events.len() == 0 {
        Seq::empty()
    } else {
        let before = spec_moved_keys(events.drop_last());
        let (t, c, v) = events.last();
        match spec_key_event(t, c, v) {
            Some((key, _)) => before.push(key),
            None => before,
        }
    }
}

/// The keys of a list of XKB answers, in order.
pub open spec fn answer_keys(answers: Seq<(Key, bool)>) -> Seq<Key> {
    answers.map_values(|a: (Key, bool)| a.0)
}

/// The lock key moves that a list of input events reports, in order: the key
/// and direction of each event that reports a lock key press or release.
pub open spec fn spec_key_moves(events: Seq<(u16, u16, i32)>) -> Seq<(Key, Dir)>
    decreases events.len(),
{
    if events.len() == 0 {
        Seq::empty()
    } else {
        let before = spec_key_moves(events.drop_last());
        let (t, c, v) = events.last();
        match spec_key_event(t, c, v) {
            Some(m) => before.push(m),
            None => before,
        }
    }
}

/// Handles the input events drained from a keyboard, given as
/// `(type, code, value)`: feeds each lock key press or release into `xkb` by
/// the update that `callbacks` hold for it, and answers the diff in which each
/// moved key has XKB's answer to its last move.
///
/// The answers are those of the machine itself: there are machine states
/// from the one given to the one left, such that the i-th answer is what
/// `run` returned on the i-th state for the i-th move's update, leaving the
/// next state.
pub fn drain_events<X: XkbMachine>(
    events: &Vec<(u16, u16, i32)>,
    callbacks: &XkbCallbacks,
    xkb: &mut X,
) -> (d: KeyboardStateDiff)
    ensures
        exists|answers: Seq<(Key, bool)>|
            #![trigger spec_lock_answers(answers)]
            d@ == spec_lock_answers(answers) && answer_keys(answers) == spec_moved_keys(events@),
        exists|answers: Seq<(Key, bool)>, states: Seq<X>|
            #![trigger spec_lock_answers(answers), states.len()]
            {
                &&& d@ == spec_lock_answers(answers)
                &&& answers.len() == spec_key_moves(events@).len()
                &&& states.len() == answers.len() + 1
                &&& states[0] == *old(xkb)
                &&& states[answers.len() as int] == *final(xkb)
                &&& forall|j: int|
                    #![trigger answers[j]]
                    0 <= j < answers.len() ==> {
                        let (key, dir) = spec_key_moves(events@)[j];
                        &&& answers[j].0 == key
                        &&& exists|m: &mut X|
                            #![trigger call_ensures(X::run, (m, callbacks.update_for(key, dir)), answers[j].1)]
                            mut_ref_current(m) == states[j] && mut_ref_future(m) == states[j + 1]
                                && call_ensures(
                                X::run,
                                (m, callbacks.update_for(key, dir)),
                                answers[j].1,
                            )
                    }
            },
{
    let mut answers: Vec<(Key, bool)> = Vec::new();
    let ghost mut states: Seq<X> = seq![*xkb];
    let mut i: usize = 0;
    while i < events.len()
        invariant
            0 <= i <= events.len(),
            answer_keys(answers@) == spec_moved_keys(events@.subrange(0, i as int)),
            answers@.len() == spec_key_moves(events@.subrange(0, i as int)).len(),
            states.len() == answers@.len() + 1,
            states[0] == *old(xkb),
            states[answers@.len() as int] == *xkb,
            forall|j: int|
                #![trigger answers@[j]]
                0 <= j < answers@.len() ==> {
                    let (key, dir) = spec_key_moves(events@.subrange(0, i as int))[j];
                    &&& answers@[j].0 == key
                    &&& exists|m: &mut X|
                        #![trigger call_ensures(X::run, (m, callbacks.update_for(key, dir)), answers@[j].1)]
                        mut_ref_current(m) == states[j] && mut_ref_future(m) == states[j + 1]
                            && call_ensures(X::run, (m, callbacks.update_for(key, dir)), answers@[j].1)
                },
        decreases events.len() - i,
    {
        let (event_type, code, value) = events[i];
        let ghost prev = events@.subrange(0, i as int);
        let ghost next = events@.subrange(0, i + 1);
        proof {
            assert(next.drop_last() =~= prev);
            assert(next.last() == events@[i as int]);
        }
        match key_event(event_type, code, value) {
            Some((key, dir)) => {
                let update = callbacks.dispatch(key, dir);
                let ghost before_state = *xkb;
                let locked = xkb.run(update);
                let ghost before = answers@;
                answers.push((key, locked));
                proof {
                    let old_states = states;
                    states = states.push(*xkb);
                    assert(answer_keys(answers@) =~= answer_keys(before).push(key));
                    assert(spec_key_moves(next) == spec_key_moves(prev).push((key, dir)));
                    assert forall|j: int|
                        #![trigger answers@[j]]
                        0 <= j < answers@.len() implies {
                            let (k2, d2) = spec_key_moves(next)[j];
                            &&& answers@[j].0 == k2
                            &&& exists|m: &mut X|
                                #![trigger call_ensures(X::run, (m, callbacks.update_for(k2, d2)), answers@[j].1)]
                                mut_ref_current(m) == states[j] && mut_ref_future(m) == states[j
                                    + 1] && call_ensures(
                                    X::run,
                                    (m, callbacks.update_for(k2, d2)),
                                    answers@[j].1,
                                )
                        } by {
                        if j < before.len() {
                            assert(answers@[j] == before[j]);
                            assert(spec_key_moves(next)[j] == spec_key_moves(prev)[j]);
                            assert(states[j] == old_states[j]);
                            assert(states[j + 1] == old_states[j + 1]);
                        } else {
                            assert(spec_key_moves(next)[j].0 == key);
                            assert(spec_key_moves(next)[j].1 == dir);
                            assert(answers@[j].1 == locked);
                            assert(states[j] == before_state);
                            assert(states[j + 1] == *xkb);
                        }
                    }
                }
            },
            None => {
                proof {
                    assert(spec_key_moves(next) == spec_key_moves(prev));
                }
            },
        }
        i = i + 1;
    }
    assert(events@.subrange(0, events.len() as int) =~= events@);
    let d = fold_lock_answers(answers.as_slice());
    assert(d@ == spec_lock_answers(answers@));
    d
}

} // verus!
