use vstd::prelude::*;

use crate::key::Key;

verus! {

/// A change to the lock state: for each key, its new value, or nothing when
/// the key is left as it is.
#[derive(Debug, Clone, Copy)]
pub struct KeyboardStateDiff {
    caps_lock: Option<bool>,
    num_lock: Option<bool>,
}

impl KeyboardStateDiff {
    /// The entry that the diff holds for `key`.
    pub closed spec fn entry(self, key: Key) -> Option<bool> {
        match key {
            Key::CapsLock => self.caps_lock,
            Key::NumLock => self.num_lock,
        }
    }
}

impl View for KeyboardStateDiff {
    /// The keys the diff changes, each with its new value.
    type V = Map<Key, bool>;

    closed spec fn view(&self) -> Map<Key, bool> {
        Map::new(|k: Key| self.entry(k) is Some, |k: Key| self.entry(k)->0)
    }
}

/// What a diff holds for one key, read off its map of changes.
pub open spec fn diff_entry(changes: Map<Key, bool>, key: Key) -> Option<bool> {
    if changes.contains_key(key) {
        Some(changes[key])
    } else {
        None
    }
}

/// The changes after an entry of a diff has been set.
pub open spec fn with_entry(changes: Map<Key, bool>, key: Key, value: Option<bool>) -> Map<
    Key,
    bool,
> {
    match value {
        Some(v) => changes.insert(key, v),
        None => changes.remove(key),
    }
}

/// Two diffs with the same changes are the same diff.
pub proof fn lemma_diff_view_injective(a: KeyboardStateDiff, b: KeyboardStateDiff)
    requires
        a@ == b@,
    ensures
        a == b,
{
    lemma_diff_entry(a, Key::CapsLock);
    lemma_diff_entry(b, Key::CapsLock);
    lemma_diff_entry(a, Key::NumLock);
    lemma_diff_entry(b, Key::NumLock);
}

/// A diff holds, for each key, exactly what its view says.
pub proof fn lemma_diff_entry(d: KeyboardStateDiff, key: Key)
    ensures
        d.entry(key) == diff_entry(d@, key),
{
    if d.entry(key) is Some {
        assert(d@.contains_key(key));
    } else {
        assert(!d@.contains_key(key));
    }
}

impl KeyboardStateDiff {
    /// The diff that changes nothing.
    pub fn empty() -> (d: Self)
        ensures
            d@ == Map::<Key, bool>::empty(),
    {
        let d = Self { caps_lock: None, num_lock: None };
        assert(d@ =~= Map::<Key, bool>::empty());
        d
    }

    /// Whether the diff changes nothing.
    pub fn is_empty(self) -> (b: bool)
        ensures
            b == (self@ == Map::<Key, bool>::empty()),
    {
        let b = self.caps_lock.is_none() && self.num_lock.is_none();
        if b {
            assert(self@ =~= Map::<Key, bool>::empty());
        } else if self.caps_lock.is_some() {
            assert(self@.contains_key(Key::CapsLock));
        } else {
            assert(self@.contains_key(Key::NumLock));
        }
        b
    }

    /// The new value the diff gives `key`, if any.
    pub fn get(self, key: Key) -> (v: Option<bool>)
        ensures
            v == diff_entry(self@, key),
    {
        match key {
            Key::CapsLock => self.caps_lock,
            Key::NumLock => self.num_lock,
        }
    }

    /// Sets the entry of `key`: a new value, or none to leave the key alone.
    pub fn set(&mut self, key: Key, value: Option<bool>)
        ensures
            final(self)@ == with_entry(old(self)@, key, value),
    {
        match key {
            Key::CapsLock => self.caps_lock = value,
            Key::NumLock => self.num_lock = value,
        }
        assert(self@ =~= with_entry(old(self)@, key, value));
    }

    /// Merges two diffs; where both change a key, `self` wins.
    pub fn or(self, fallback: Self) -> (d: Self)
        ensures
            d@ == fallback@.union_prefer_right(self@),
    {
        let d = Self {
            caps_lock: match self.caps_lock {
                Some(v) => Some(v),
                None => fallback.caps_lock,
            },
            num_lock: match self.num_lock {
                Some(v) => Some(v),
                None => fallback.num_lock,
            },
        };
        assert(d@ =~= fallback@.union_prefer_right(self@));
        d
    }
}

impl core::ops::BitOrAssign for KeyboardStateDiff {
    /// Merges `rhs` into `self`; where both change a key, `rhs` wins.
    fn bitor_assign(&mut self, rhs: Self)
        ensures
            final(self)@ == old(self)@.union_prefer_right(rhs@),
    {
        *self = rhs.or(*self);
    }
}

/// Law: the empty diff is neutral for `or`, on either side.
pub proof fn lemma_or_empty_identity(d: Map<Key, bool>)
    ensures
        d.union_prefer_right(Map::empty()) == d,
        Map::<Key, bool>::empty().union_prefer_right(d) == d,
{
    assert(d.union_prefer_right(Map::empty()) =~= d);
    assert(Map::<Key, bool>::empty().union_prefer_right(d) =~= d);
}

/// Law: merging diffs with `or` is associative.
pub proof fn lemma_or_associative(a: Map<Key, bool>, b: Map<Key, bool>, c: Map<Key, bool>)
    ensures
        a.union_prefer_right(b).union_prefer_right(c) == a.union_prefer_right(
            b.union_prefer_right(c),
        ),
{
    assert(a.union_prefer_right(b).union_prefer_right(c) =~= a.union_prefer_right(
        b.union_prefer_right(c),
    ));
}

} // verus!
