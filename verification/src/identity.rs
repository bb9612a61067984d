//! Procedure identities: fixed-width keys made from human-readable names.

use vstd::prelude::*;
use vstd::string::StringSliceAdditionalSpecFns;
use vstd::utf8::encode_utf8;
use crate::word::{all_zero, bytes_equal, zero_between};

verus! {

/// The width of a procedure identity in bytes.
pub const KEY_WIDTH: usize = 24;

/// A procedure identity. The all-zero key is reserved: it means "no procedure".
pub type ProcedureKey = [u8; 24];

/// The identity that a name's bytes encode: the bytes in order from the left, cut off after
/// `KEY_WIDTH` of them, and filled up with zero bytes on the right.
pub open spec fn encode_name(name: Seq<u8>) -> Seq<u8> {
    Seq::new(
        KEY_WIDTH as nat,
        |i: int|
            if i < name.len() {
                name[i]
            } else {
                0u8
            },
    )
}

/// The identity that a name encodes: that of its bytes in UTF-8.
pub open spec fn name_identity(name: Seq<char>) -> Seq<u8> {
    encode_name(encode_utf8(name))
}

/// The identity that stands for "no procedure": `KEY_WIDTH` zero bytes.
pub open spec fn zero_identity() -> Seq<u8> {
    Seq::new(KEY_WIDTH as nat, |i: int| 0u8)
}

/// `long` is `short` followed by nothing but zero bytes.
pub open spec fn padded_with_zeros(short: Seq<u8>, long: Seq<u8>) -> bool {
    &&& short.len() <= long.len()
    &&& long.take(short.len() as int) == short
    &&& all_zero(long.skip(short.len() as int))
}

/// Encodes a name as a procedure identity.
pub fn procedure_key(name: &str) -> (key: ProcedureKey)
    ensures
        key@ == name_identity(name@),
{
    let bytes = name.as_bytes();
    let mut key = [0u8; 24];
    let mut i: usize = 0;
    while i < KEY_WIDTH && i < bytes.len()
        invariant
            i <= KEY_WIDTH,
            i <= bytes.len(),
            forall|j: int| 0 <= j < i ==> key@[j] == bytes@[j],
            forall|j: int| i <= j < KEY_WIDTH ==> key@[j] == 0,
        decreases KEY_WIDTH - i,
    {
        key[i] = bytes[i];
        i = i + 1;
    }
    assert(key@ =~= encode_name(bytes@));
    key
}

/// Copies the `KEY_WIDTH` bytes of `bytes` that start at `at` into an identity.
pub(crate) fn key_at(bytes: &[u8], at: usize) -> (key: ProcedureKey)
    requires
        at + KEY_WIDTH <= bytes.len(),
    ensures
        key@ == bytes@.subrange(at as int, at + KEY_WIDTH),
{
    let mut key = [0u8; 24];
    let mut i: usize = 0;
    while i < KEY_WIDTH
        invariant
            i <= KEY_WIDTH,
            at + KEY_WIDTH <= bytes.len(),
            forall|j: int| 0 <= j < i ==> key@[j] == bytes@[at + j],
        decreases KEY_WIDTH - i,
    {
        key[i] = bytes[at + i];
        i = i + 1;
    }
    assert(key@ =~= bytes@.subrange(at as int, at + KEY_WIDTH));
    key
}

/// The reserved all-zero identity.
pub fn zero_key() -> (key: ProcedureKey)
    ensures
        key@ == zero_identity(),
{
    let key = [0u8; 24];
    assert(key@ =~= zero_identity());
    key
}

/// Whether `key` is the reserved all-zero identity.
pub fn is_zero_key(key: &ProcedureKey) -> (zero: bool)
    ensures
        zero == (key@ == zero_identity()),
{
    let zero = zero_between(key.as_slice(), 0, KEY_WIDTH);
    proof {
        assert(key@.subrange(0, KEY_WIDTH as int) =~= key@);
        if zero {
            assert(key@ =~= zero_identity());
        }
    }
    zero
}

/// Whether two identities are equal, that is, hold the same bytes.
pub fn same_key(a: &ProcedureKey, b: &ProcedureKey) -> (same: bool)
    ensures
        same == (a@ == b@),
{
    bytes_equal(a.as_slice(), b.as_slice())
}

/// A name longer than the key keeps its first `KEY_WIDTH` bytes and loses the rest; in a
/// shorter one every byte is kept and zeros follow.
pub proof fn encode_name_keeps_prefix(name: Seq<u8>)
    ensures
        encode_name(name).len() == KEY_WIDTH,
        name.len() >= KEY_WIDTH ==> encode_name(name) == name.take(KEY_WIDTH as int),
        name.len() <= KEY_WIDTH ==> padded_with_zeros(name, encode_name(name)),
        name.len() > KEY_WIDTH ==> encode_name(name) == encode_name(name.take(KEY_WIDTH as int)),
{
    if name.len() >= KEY_WIDTH {
        assert(encode_name(name) =~= name.take(KEY_WIDTH as int));
        assert(encode_name(name) =~= encode_name(name.take(KEY_WIDTH as int)));
    }
    if name.len() <= KEY_WIDTH {
        assert(encode_name(name).take(name.len() as int) =~= name);
    }
}

/// Two names that fit in a key get the same identity exactly when one of them is the other
/// followed by zero bytes. So distinct names that fit get distinct identities unless they
/// differ only in trailing zero bytes.
pub proof fn encode_name_collisions(a: Seq<u8>, b: Seq<u8>)
    requires
        a.len() <= KEY_WIDTH,
        b.len() <= KEY_WIDTH,
    ensures
        encode_name(a) == encode_name(b) <==> padded_with_zeros(a, b) || padded_with_zeros(b, a),
{
    let ea = encode_name(a);
    let eb = encode_name(b);
    if padded_with_zeros(a, b) {
        assert forall|i: int| 0 <= i < KEY_WIDTH implies ea[i] == eb[i] by {
            if i < a.len() {
                assert(b.take(a.len() as int)[i] == b[i]);
            } else if i < b.len() {
                assert(b.skip(a.len() as int)[i - a.len()] == b[i]);
            }
        }
        assert(ea =~= eb);
    }
    if padded_with_zeros(b, a) {
        assert forall|i: int| 0 <= i < KEY_WIDTH implies ea[i] == eb[i] by {
            if i < b.len() {
                assert(a.take(b.len() as int)[i] == a[i]);
            } else if i < a.len() {
                assert(a.skip(b.len() as int)[i - b.len()] == a[i]);
            }
        }
        assert(ea =~= eb);
    }
    if ea == eb {
        if a.len() <= b.len() {
            assert forall|i: int| 0 <= i < a.len() implies b.take(a.len() as int)[i] == a[i] by {
                assert(ea[i] == eb[i]);
            }
            assert(b.take(a.len() as int) =~= a);
            assert forall|i: int| 0 <= i < b.len() - a.len() implies b.skip(a.len() as int)[i]
                == 0 by {
                assert(ea[i + a.len()] == eb[i + a.len()]);
            }
        } else {
            assert forall|i: int| 0 <= i < b.len() implies a.take(b.len() as int)[i] == b[i] by {
                assert(ea[i] == eb[i]);
            }
            assert(a.take(b.len() as int) =~= b);
            assert forall|i: int| 0 <= i < a.len() - b.len() implies a.skip(b.len() as int)[i]
                == 0 by {
                assert(ea[i + b.len()] == eb[i + b.len()]);
            }
        }
    }
}

} // verus!
