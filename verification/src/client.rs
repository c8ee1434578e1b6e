use vstd::prelude::*;

use crate::key::Key;
use crate::keyboard::diff::{KeyboardStateDiff, diff_entry};
use crate::keyboard::state::{KeyboardState, applied, changed_keys, reported_change};

verus! {

/// The byte that tells clients the new value of a lock key: `'0'`/`'1'` for
/// Caps Lock off/on, `'2'`/`'3'` for Num Lock off/on.
pub open spec fn spec_key_byte(key: Key, engaged: bool) -> u8 {
    match key {
        Key::CapsLock => if engaged {
            0x31u8
        } else {
            0x30u8
        },
        Key::NumLock => if engaged {
            0x33u8
        } else {
            0x32u8
        },
    }
}

/// The bytes that announce an entry of a diff: one byte when the diff changes
/// the key, none otherwise.
pub open spec fn spec_entry_bytes(key: Key, entry: Option<bool>) -> Seq<u8> {
    match entry {
        Some(v) => seq![spec_key_byte(key, v)],
        None => Seq::empty(),
    }
}

/// The message that announces a diff to clients: the Caps Lock byte, if any,
/// then the Num Lock byte, if any.
pub open spec fn spec_encode(changes: Map<Key, bool>) -> Seq<u8> {
    spec_entry_bytes(Key::CapsLock, diff_entry(changes, Key::CapsLock)) + spec_entry_bytes(
        Key::NumLock,
        diff_entry(changes, Key::NumLock),
    )
}

/// Why a message did not reach a client in full.
#[derive(Debug, Clone, Copy, PartialEq, Eq, Structural)]
pub enum SendError {
    /// Fewer bytes than the message holds were sent.
    ShortWrite { written: usize, expected: usize },
}

/// The message that announces `diff` to clients.
pub fn encode_diff(diff: KeyboardStateDiff) -> (buf: Vec<u8>)
    ensures
        buf@ == spec_encode(diff@),
{
    let mut buf: Vec<u8> = Vec::new();
    match diff.get(Key::CapsLock) {
        Some(v) => buf.push(if v {
            0x31u8
        } else {
            0x30u8
        }),
        None => {},
    }
    match diff.get(Key::NumLock) {
        Some(v) => buf.push(if v {
            0x33u8
        } else {
            0x32u8
        }),
        None => {},
    }
    assert(buf@ =~= spec_encode(diff@));
    buf
}

/// Checks that a send of `message` wrote all of it.
pub fn check_sent(written: usize, message: &Vec<u8>) -> (r: Result<(), SendError>)
    ensures
        r is Ok <==> written == message@.len(),
        r matches Err(e) ==> e == (SendError::ShortWrite { written, expected: message@.len() as usize }),
{
    if written == message.len() {
        Ok(())
    } else {
        Err(SendError::ShortWrite { written, expected: message.len() })
    }
}

/// Law: every byte of a message is one of `'0'`, `'1'`, `'2'`, `'3'`, and a
/// message holds at most one byte per lock key.
pub proof fn lemma_encode_alphabet(changes: Map<Key, bool>)
    ensures
        spec_encode(changes).len() <= 2,
        forall|i: int|
            0 <= i < spec_encode(changes).len() ==> 0x30u8 <= #[trigger] spec_encode(changes)[i]
                <= 0x33u8,
{
}

/// Law: different diffs are announced by different messages, so a client can
/// always tell which keys changed and to what.
pub proof fn lemma_encode_injective(a: Map<Key, bool>, b: Map<Key, bool>)
    requires
        spec_encode(a) == spec_encode(b),
    ensures
        a == b,
{
    let ea = spec_encode(a);
    let eb = spec_encode(b);
    assert forall|k: Key| diff_entry(a, k) == diff_entry(b, k) by {
        let ca = spec_entry_bytes(Key::CapsLock, diff_entry(a, Key::CapsLock));
        let cb = spec_entry_bytes(Key::CapsLock, diff_entry(b, Key::CapsLock));
        let na = spec_entry_bytes(Key::NumLock, diff_entry(a, Key::NumLock));
        let nb = spec_entry_bytes(Key::NumLock, diff_entry(b, Key::NumLock));
        assert(ea == ca + na);
        assert(eb == cb + nb);
        // A Caps Lock byte is below '2', a Num Lock byte is not.
        if ca.len() != cb.len() {
            if ca.len() == 1 {
                assert(ea[0] == ca[0]);
                assert(eb[0] == nb[0]);
            } else {
                assert(ea[0] == na[0]);
                assert(eb[0] == cb[0]);
            }
        }
        assert(ca.len() == cb.len());
        assert(ca =~= ea.subrange(0, ca.len() as int));
        assert(cb =~= eb.subrange(0, cb.len() as int));
        assert(na =~= ea.subrange(ca.len() as int, ea.len() as int));
        assert(nb =~= eb.subrange(cb.len() as int, eb.len() as int));
        if ca.len() == 1 {
            assert(ca[0] == cb[0]);
        }
        if na.len() == 1 && nb.len() == 1 {
            assert(na[0] == nb[0]);
        }
    }
    assert forall|k: Key| a.contains_key(k) == b.contains_key(k) by {
        assert(diff_entry(a, k) == diff_entry(b, k));
    }
    assert forall|k: Key| a.contains_key(k) implies a[k] == b[k] by {
        assert(diff_entry(a, k) == diff_entry(b, k));
    }
    assert(a =~= b);
}

/// The message that tells a new client the current lock state.
pub fn greeting(kb_state: KeyboardState) -> (buf: Vec<u8>)
    ensures
        buf@ == spec_encode(kb_state@),
{
    encode_diff(kb_state.as_diff())
}

/// Applies the input gathered in a round of the event loop to the lock state
/// and answers the message to broadcast: the encoded change, or none when no
/// key changed.
pub fn change_message(kb_state: &mut KeyboardState, diff: KeyboardStateDiff) -> (msg: Option<Vec<u8>>)
    ensures
        final(kb_state)@ == applied(old(kb_state)@, diff@),
        match msg {
            Some(m) => reported_change(old(kb_state)@, diff@) matches Some(c) && m@ == spec_encode(c),
            None => reported_change(old(kb_state)@, diff@) is None,
        },
{
    match kb_state.apply(diff) {
        Some(change) => Some(encode_diff(change)),
        None => None,
    }
}

/// How a client's picture of the lock state changes when it reads the byte `b`.
pub open spec fn spec_read_byte(state: Map<Key, bool>, b: u8) -> Map<Key, bool> {
    if b == 0x30u8 {
        state.insert(Key::CapsLock, false)
    } else if b == 0x31u8 {
        state.insert(Key::CapsLock, true)
    } else if b == 0x32u8 {
        state.insert(Key::NumLock, false)
    } else if b == 0x33u8 {
        state.insert(Key::NumLock, true)
    } else {
        state
    }
}

/// A client's picture of the lock state after it has read `bytes` in order.
pub open spec fn spec_read(state: Map<Key, bool>, bytes: Seq<u8>) -> Map<Key, bool>
    decreases bytes.len(),
{
    if bytes.len() == 0 {
        state
    } else {
        spec_read(spec_read_byte(state, bytes[0]), bytes.drop_first())
    }
}

/// Reading the message of a diff updates a client's picture by that diff.
pub proof fn lemma_read_encoded(state: Map<Key, bool>, changes: Map<Key, bool>)
    ensures
        spec_read(state, spec_encode(changes)) == state.union_prefer_right(changes),
{
    let c = spec_entry_bytes(Key::CapsLock, diff_entry(changes, Key::CapsLock));
    let n = spec_entry_bytes(Key::NumLock, diff_entry(changes, Key::NumLock));
    let e = spec_encode(changes);
    assert(e == c + n);
    let after_caps = match diff_entry(changes, Key::CapsLock) {
        Some(v) => state.insert(Key::CapsLock, v),
        None => state,
    };
    let after_num = match diff_entry(changes, Key::NumLock) {
        Some(v) => after_caps.insert(Key::NumLock, v),
        None => after_caps,
    };
    assert(spec_read(after_caps, n) == after_num) by {
        if n.len() == 1 {
            assert(n.drop_first() =~= Seq::<u8>::empty());
            assert(spec_read(spec_read_byte(after_caps, n[0]), n.drop_first()) == spec_read_byte(
                after_caps,
                n[0],
            ));
        } else {
            assert(n =~= Seq::<u8>::empty());
        }
    }
    assert(spec_read(state, e) == spec_read(after_caps, n)) by {
        if c.len() == 1 {
            assert(e[0] == c[0]);
            assert(e.drop_first() =~= n);
            assert(spec_read_byte(state, c[0]) == after_caps);
        } else {
            assert(c =~= Seq::<u8>::empty());
            assert(e =~= n);
        }
    }
    assert(after_num =~= state.union_prefer_right(changes));
}

/// Law: a client that has read the greeting knows the current lock state,
/// whatever it believed before.
pub proof fn lemma_greeting_informs(belief: Map<Key, bool>, current: KeyboardState)
    ensures
        spec_read(belief, spec_encode(current@)) == current@,
{
    lemma_read_encoded(belief, current@);
    crate::keyboard::state::lemma_state_covers_keys(current);
    assert(belief.union_prefer_right(current@) =~= current@);
}

/// Law: a client that knows the lock state and reads the message of a round
/// knows the lock state after that round; when no message is sent, the state
/// did not change.
pub proof fn lemma_change_message_tracks(state: KeyboardState, diff: KeyboardStateDiff)
    ensures
        reported_change(state@, diff@) matches Some(c) ==> spec_read(state@, spec_encode(c))
            == applied(state@, diff@),
        reported_change(state@, diff@) is None ==> applied(state@, diff@) == state@,
{
    let c = changed_keys(state@, diff@);
    crate::keyboard::state::lemma_state_covers_keys(state);
    lemma_read_encoded(state@, c);
    assert(state@.union_prefer_right(c) =~= applied(state@, diff@));
    crate::keyboard::state::lemma_report_iff_changed(state@, diff@);
}

} // verus!
