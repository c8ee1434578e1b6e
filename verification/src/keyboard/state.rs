use vstd::prelude::*;

use crate::key::Key;
use crate::keyboard::diff::KeyboardStateDiff;
use vstd::std_specs::ops::BitOrSpec;

verus! {

/// Which lock keys are engaged.
#[derive(Debug, Clone, Copy)]
pub struct KeyboardState {
    caps_lock: bool,
    num_lock: bool,
}

impl KeyboardState {
    /// Whether `key` is engaged in this state.
    pub closed spec fn engaged(self, key: Key) -> bool {
        match key {
            Key::CapsLock => self.caps_lock,
            Key::NumLock => self.num_lock,
        }
    }
}

impl View for KeyboardState {
    /// Every key, with whether it is engaged.
    type V = Map<Key, bool>;

    closed spec fn view(&self) -> Map<Key, bool> {
        Map::total(|k: Key| self.engaged(k))
    }
}

/// The state in which no lock key is engaged.
pub open spec fn all_released() -> Map<Key, bool> {
    Map::total(|k: Key| false)
}

/// The keys that `diff` gives a value different from the one they have in
/// `state`, each with that new value.
pub open spec fn changed_keys(state: Map<Key, bool>, diff: Map<Key, bool>) -> Map<Key, bool> {
    Map::new(|k: Key| diff.contains_key(k) && diff[k] != state[k], |k: Key| diff[k])
}

/// A state after a diff has been applied to it.
pub open spec fn applied(state: Map<Key, bool>, diff: Map<Key, bool>) -> Map<Key, bool> {
    state.union_prefer_right(diff)
}

/// What `apply` reports for a diff applied to a state: the changed keys, or
/// nothing when no key changes.
pub open spec fn reported_change(state: Map<Key, bool>, diff: Map<Key, bool>) -> Option<
    Map<Key, bool>,
> {
    let changed = changed_keys(state, diff);
    if changed == Map::<Key, bool>::empty() {
        None
    } else {
        Some(changed)
    }
}

/// Two states with the same view are the same state.
pub proof fn lemma_state_view_injective(a: KeyboardState, b: KeyboardState)
    requires
        a@ == b@,
    ensures
        a == b,
{
    assert(a@[Key::CapsLock] == a.caps_lock && b@[Key::CapsLock] == b.caps_lock);
    assert(a@[Key::NumLock] == a.num_lock && b@[Key::NumLock] == b.num_lock);
}

/// A state gives a value to every key.
pub proof fn lemma_state_total(s: KeyboardState, key: Key)
    ensures
        s@.contains_key(key),
        s@[key] == s.engaged(key),
{
}

/// Every key has a value in a state.
pub proof fn lemma_state_covers_keys(s: KeyboardState)
    ensures
        forall|k: Key| #[trigger] s@.contains_key(k),
{
}

impl KeyboardState {
    /// The state with no lock key engaged.
    pub fn empty() -> (s: Self)
        ensures
            s@ == all_released(),
    {
        let s = Self { caps_lock: false, num_lock: false };
        assert(s@ =~= all_released());
        s
    }

    /// The diff that sets every key to its value in this state.
    pub fn as_diff(self) -> (d: KeyboardStateDiff)
        ensures
            d@ == self@,
    {
        let mut diff = KeyboardStateDiff::empty();
        diff.set(Key::CapsLock, Some(self.caps_lock));
        diff.set(Key::NumLock, Some(self.num_lock));
        assert(diff@ =~= self@);
        diff
    }

    /// Whether `key` is engaged.
    pub fn get(self, key: Key) -> (b: bool)
        ensures
            b == self@[key],
    {
        match key {
            Key::CapsLock => self.caps_lock,
            Key::NumLock => self.num_lock,
        }
    }

    /// Engages or releases `key`.
    pub fn set(&mut self, key: Key, value: bool)
        ensures
            final(self)@ == old(self)@.insert(key, value),
    {
        match key {
            Key::CapsLock => self.caps_lock = value,
            Key::NumLock => self.num_lock = value,
        }
        assert(self@ =~= old(self)@.insert(key, value));
    }

    /// Applies `diff` and reports what it changed: the keys whose value is
    /// now different, or `None` when no key changed.
    pub fn apply(&mut self, diff: KeyboardStateDiff) -> (out: Option<KeyboardStateDiff>)
        ensures
            final(self)@ == applied(old(self)@, diff@),
            match out {
                Some(o) => reported_change(old(self)@, diff@) == Some(o@),
                None => reported_change(old(self)@, diff@) is None,
            },
    {
        let ghost before = self@;
        let mut out = KeyboardStateDiff::empty();
        match diff.get(Key::CapsLock) {
            Some(caps_lock) => {
                if self.caps_lock != caps_lock {
                    self.caps_lock = caps_lock;
                    out.set(Key::CapsLock, Some(caps_lock));
                }
            },
            None => {},
        }
        match diff.get(Key::NumLock) {
            Some(num_lock) => {
                if self.num_lock != num_lock {
                    self.num_lock = num_lock;
                    out.set(Key::NumLock, Some(num_lock));
                }
            },
            None => {},
        }
        assert(self@ =~= applied(before, diff@));
        assert(out@ =~= changed_keys(before, diff@));
        if out.is_empty() {
            None
        } else {
            Some(out)
        }
    }
}

impl core::ops::BitOr for KeyboardState {
    type Output = Self;

    /// Engages every key that is engaged in either state.
    fn bitor(self, rhs: Self) -> (s: Self) {
        Self { caps_lock: self.caps_lock || rhs.caps_lock, num_lock: self.num_lock || rhs.num_lock }
    }
}

impl vstd::std_specs::ops::BitOrSpecImpl for KeyboardState {
    open spec fn obeys_bitor_spec() -> bool {
        true
    }

    open spec fn bitor_req(self, rhs: Self) -> bool {
        true
    }

    closed spec fn bitor_spec(self, rhs: Self) -> Self {
        KeyboardState {
            caps_lock: self.caps_lock || rhs.caps_lock,
            num_lock: self.num_lock || rhs.num_lock,
        }
    }
}

/// The state in which a key is engaged when it is engaged in `a` or in `b`.
pub open spec fn either_engaged(a: Map<Key, bool>, b: Map<Key, bool>) -> Map<Key, bool> {
    Map::total(|k: Key| a[k] || b[k])
}

/// What `|` computes on two states, by their views.
pub proof fn lemma_bitor_view(a: KeyboardState, b: KeyboardState)
    ensures
        a.bitor_spec(b)@ == either_engaged(a@, b@),
{
    assert(a.bitor_spec(b)@ =~= either_engaged(a@, b@));
}

/// Law: a second application of the same diff changes nothing and reports nothing.
pub proof fn lemma_apply_idempotent(state: Map<Key, bool>, diff: Map<Key, bool>)
    requires
        forall|k: Key| state.contains_key(k),
    ensures
        applied(applied(state, diff), diff) == applied(state, diff),
        reported_change(applied(state, diff), diff) is None,
{
    assert(applied(applied(state, diff), diff) =~= applied(state, diff));
    assert(changed_keys(applied(state, diff), diff) =~= Map::<Key, bool>::empty());
}

/// Law: applying the full diff of a state `target` to any state yields `target`;
/// this is what a newly connected client is sent.
pub proof fn lemma_apply_full_diff(state: KeyboardState, target: KeyboardState)
    ensures
        applied(state@, target@) == target@,
{
    assert(applied(state@, target@) =~= target@);
}

/// Law: the reported change is empty exactly when the state is unchanged.
pub proof fn lemma_report_iff_changed(state: Map<Key, bool>, diff: Map<Key, bool>)
    requires
        forall|k: Key| state.contains_key(k),
    ensures
        reported_change(state, diff) is None <==> applied(state, diff) == state,
{
    if reported_change(state, diff) is None {
        assert forall|k: Key| diff.contains_key(k) implies diff[k] == state[k] by {
            if diff[k] != state[k] {
                assert(changed_keys(state, diff).contains_key(k));
            }
        }
        assert(applied(state, diff) =~= state);
    } else {
        if applied(state, diff) == state {
            assert(changed_keys(state, diff) =~= Map::<Key, bool>::empty()) by {
                assert forall|j: Key| !changed_keys(state, diff).contains_key(j) by {
                    if diff.contains_key(j) {
                        assert(applied(state, diff)[j] == diff[j]);
                    }
                }
            }
        }
    }
}

/// Law: `|` on states is commutative and idempotent, and the state with no key
/// engaged is its identity.
pub proof fn lemma_bitor_laws(a: KeyboardState, b: KeyboardState, none: KeyboardState)
    requires
        none@ == all_released(),
    ensures
        a.bitor_spec(b) == b.bitor_spec(a),
        a.bitor_spec(a) == a,
        a.bitor_spec(none) == a,
{
    assert(none@[Key::CapsLock] == none.caps_lock);
    assert(none@[Key::NumLock] == none.num_lock);
}

} // verus!
