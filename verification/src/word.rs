//! Fixed-width host values: 20-byte addresses and 32-byte big-endian words.

use vstd::prelude::*;

verus! {

/// The number that a byte sequence denotes when read as a big-endian numeral in base 256.
pub open spec fn be_value(s: Seq<u8>) -> nat
    decreases s.len(),
{
    if s.len() == 0 {
        0
    } else {
        be_value(s.drop_last()) * 256 + s.last() as nat
    }
}

/// 256 to the power `n`.
pub open spec fn pow256(n: nat) -> nat
    decreases n,
{
    if n == 0 {
        1
    } else {
        256 * pow256((n - 1) as nat)
    }
}

/// Every byte of `s` is zero.
pub open spec fn all_zero(s: Seq<u8>) -> bool {
    forall|i: int| 0 <= i < s.len() ==> s[i] == 0
}

/// A numeral of `n` digits is below 256 to the `n`.
proof fn lemma_be_value_bound(s: Seq<u8>)
    ensures
        be_value(s) < pow256(s.len()),
    decreases s.len(),
{
    if s.len() > 0 {
        lemma_be_value_bound(s.drop_last());
    }
}

/// The value of a concatenation: the left part is shifted by the length of the right part.
proof fn lemma_be_value_concat(a: Seq<u8>, b: Seq<u8>)
    ensures
        be_value(a + b) == be_value(a) * pow256(b.len()) + be_value(b),
    decreases b.len(),
{
    let x = be_value(a);
    if b.len() == 0 {
        assert(a + b =~= a);
        assert(pow256(0) == 1);
        assert(x * 1 == x) by (nonlinear_arith);
    } else {
        assert((a + b).drop_last() =~= a + b.drop_last());
        assert((a + b).last() == b.last());
        lemma_be_value_concat(a, b.drop_last());
        let y = be_value(b.drop_last());
        let p = pow256(b.drop_last().len());
        assert(pow256(b.len()) == 256 * p);
        assert(be_value(a + b) == (x * p + y) * 256 + b.last() as nat);
        assert((x * p + y) * 256 == x * (256 * p) + y * 256) by (nonlinear_arith);
    }
}

/// A numeral is zero exactly when all its digits are.
pub(crate) proof fn lemma_be_value_zero(s: Seq<u8>)
    ensures
        be_value(s) == 0 <==> all_zero(s),
    decreases s.len(),
{
    if s.len() > 0 {
        let front = s.drop_last();
        lemma_be_value_zero(front);
        if all_zero(s) {
            assert forall|i: int| 0 <= i < front.len() implies front[i] == 0 by {
                assert(front[i] == s[i]);
            }
        }
        if be_value(s) == 0 {
            assert forall|i: int| 0 <= i < s.len() implies s[i] == 0 by {
                if i < front.len() {
                    assert(front[i] == s[i]);
                }
            }
        }
    }
}

/// Numerals of equal length are ordered by the first digit in which they differ.
proof fn lemma_be_value_first_difference(a: Seq<u8>, b: Seq<u8>, i: int)
    requires
        a.len() == b.len(),
        0 <= i < a.len(),
        forall|j: int| 0 <= j < i ==> a[j] == b[j],
        a[i] < b[i],
    ensures
        be_value(a) < be_value(b),
{
    let head_a = a.take(i + 1);
    let head_b = b.take(i + 1);
    let tail_a = a.skip(i + 1);
    let tail_b = b.skip(i + 1);
    assert(a =~= head_a + tail_a);
    assert(b =~= head_b + tail_b);
    lemma_be_value_concat(head_a, tail_a);
    lemma_be_value_concat(head_b, tail_b);
    lemma_be_value_bound(tail_a);
    assert(head_a.drop_last() =~= head_b.drop_last());
    let p = pow256(tail_a.len());
    let x = be_value(head_a);
    let y = be_value(head_b);
    assert(x + 1 <= y);
    assert((x + 1) * p <= y * p) by (nonlinear_arith)
        requires
            x + 1 <= y,
    ;
    assert((x + 1) * p == x * p + p) by (nonlinear_arith);
}

/// Numerals of equal length with equal values have equal digits.
proof fn lemma_be_value_injective(a: Seq<u8>, b: Seq<u8>)
    requires
        a.len() == b.len(),
        be_value(a) == be_value(b),
    ensures
        a == b,
    decreases a.len(),
{
    if a.len() > 0 {
        lemma_be_value_injective(a.drop_last(), b.drop_last());
        assert(a =~= a.drop_last().push(a.last()));
        assert(b =~= b.drop_last().push(b.last()));
    } else {
        assert(a =~= b);
    }
}

/// Whether two byte strings hold the same bytes.
pub(crate) fn bytes_equal(a: &[u8], b: &[u8]) -> (same: bool)
    ensures
        same == (a@ == b@),
{
    if a.len() != b.len() {
        return false;
    }
    let mut i: usize = 0;
    while i < a.len()
        invariant
            a.len() == b.len(),
            i <= a.len(),
            forall|j: int| 0 <= j < i ==> a@[j] == b@[j],
        decreases a.len() - i,
    {
        if a[i] != b[i] {
            return false;
        }
        i = i + 1;
    }
    assert(a@ =~= b@);
    true
}

/// Whether the bytes of `a` from `from` up to `to` are all zero.
pub(crate) fn zero_between(a: &[u8], from: usize, to: usize) -> (zero: bool)
    requires
        from <= to <= a.len(),
    ensures
        zero == all_zero(a@.subrange(from as int, to as int)),
{
    let mut i: usize = from;
    while i < to
        invariant
            from <= i <= to <= a.len(),
            forall|j: int| from <= j < i ==> a@[j] == 0,
        decreases to - i,
    {
        if a[i] != 0 {
            assert(a@.subrange(from as int, to as int)[i - from] == a@[i as int]);
            return false;
        }
        i = i + 1;
    }
    true
}

/// Copies the bytes of `input` from `from` up to `to`.
pub(crate) fn bytes_between(input: &[u8], from: usize, to: usize) -> (bytes: Vec<u8>)
    requires
        from <= to <= input.len(),
    ensures
        bytes@ == input@.subrange(from as int, to as int),
{
    let mut bytes: Vec<u8> = Vec::new();
    let mut i: usize = from;
    while i < to
        invariant
            from <= i <= to <= input.len(),
            bytes@ == input@.subrange(from as int, i as int),
        decreases to - i,
    {
        bytes.push(input[i]);
        assert(bytes@ =~= input@.subrange(from as int, i + 1));
        i = i + 1;
    }
    bytes
}

/// Copies the 20 bytes of `bytes` that start at `at` into an address.
pub(crate) fn address_at(bytes: &[u8], at: usize) -> (address: Address)
    requires
        at + 20 <= bytes.len(),
    ensures
        address@ == bytes@.subrange(at as int, at + 20),
{
    let mut out = [0u8; 20];
    let mut i: usize = 0;
    while i < 20
        invariant
            i <= 20,
            at + 20 <= bytes.len(),
            forall|j: int| 0 <= j < i ==> out@[j] == bytes@[at + j],
        decreases 20 - i,
    {
        out[i] = bytes[at + i];
        i = i + 1;
    }
    let address = Address { bytes: out };
    assert(address@ =~= bytes@.subrange(at as int, at + 20));
    address
}

/// Copies the 32 bytes of `bytes` that start at `at` into a word.
pub(crate) fn word_at(bytes: &[u8], at: usize) -> (word: Word)
    requires
        at + 32 <= bytes.len(),
    ensures
        word@ == bytes@.subrange(at as int, at + 32),
{
    let mut out = [0u8; 32];
    let mut i: usize = 0;
    while i < 32
        invariant
            i <= 32,
            at + 32 <= bytes.len(),
            forall|j: int| 0 <= j < i ==> out@[j] == bytes@[at + j],
        decreases 32 - i,
    {
        out[i] = bytes[at + i];
        i = i + 1;
    }
    let word = Word { bytes: out };
    assert(word@ =~= bytes@.subrange(at as int, at + 32));
    word
}

/// The bytes of the address that stands for "no address".
pub open spec fn zero_address() -> Seq<u8> {
    Seq::new(20, |i: int| 0u8)
}

/// The handle by which the host finds an account or a procedure's code: 20 bytes.
#[derive(Clone, Copy, Debug, PartialEq, Eq)]
pub struct Address {
    pub bytes: [u8; 20],
}

impl View for Address {
    type V = Seq<u8>;

    open spec fn view(&self) -> Seq<u8> {
        self.bytes@
    }
}

impl Address {
    /// The address that stands for "no address".
    pub fn zero() -> (address: Address)
        ensures
            address@ == zero_address(),
            all_zero(address@),
    {
        let address = Address { bytes: [0u8; 20] };
        assert(address@ =~= zero_address());
        address
    }

    /// Whether this is the zero address.
    pub fn is_zero(&self) -> (zero: bool)
        ensures
            zero == all_zero(self@),
    {
        let zero = zero_between(self.bytes.as_slice(), 0, 20);
        assert(self@.subrange(0, 20) =~= self@);
        zero
    }

    /// Whether two addresses hold the same bytes.
    pub fn same(&self, other: &Address) -> (same: bool)
        ensures
            same == (self@ == other@),
    {
        bytes_equal(self.bytes.as_slice(), other.bytes.as_slice())
    }
}

/// A 32-byte host word: a storage key or value, a log topic, an amount, or one cell of an
/// encoded capability list. As a number it is read big-endian.
#[derive(Clone, Copy, Debug, PartialEq, Eq)]
pub struct Word {
    pub bytes: [u8; 32],
}

impl View for Word {
    type V = Seq<u8>;

    open spec fn view(&self) -> Seq<u8> {
        self.bytes@
    }
}

impl Word {
    /// The number that the word denotes.
    pub open spec fn value(&self) -> nat {
        be_value(self@)
    }

    /// The word that denotes zero.
    pub fn zero() -> (word: Word)
        ensures
            word@ == Seq::new(32, |i: int| 0u8),
            word.value() == 0,
    {
        let word = Word { bytes: [0u8; 32] };
        assert(word@ =~= Seq::new(32, |i: int| 0u8));
        proof {
            lemma_be_value_zero(word@);
        }
        word
    }

    /// Whether the word denotes zero.
    pub fn is_zero(&self) -> (zero: bool)
        ensures
            zero == (self.value() == 0),
            zero == all_zero(self@),
    {
        let zero = zero_between(self.bytes.as_slice(), 0, 32);
        assert(self@.subrange(0, 32) =~= self@);
        proof {
            lemma_be_value_zero(self@);
        }
        zero
    }

    /// Whether two words hold the same bytes, which is to say denote the same number.
    pub fn same(&self, other: &Word) -> (same: bool)
        ensures
            same == (self@ == other@),
            same == (self.value() == other.value()),
    {
        proof {
            if self.value() == other.value() {
                lemma_be_value_injective(self@, other@);
            }
        }
        bytes_equal(self.bytes.as_slice(), other.bytes.as_slice())
    }

    /// Whether this word's number is at most the other's.
    pub fn at_most(&self, other: &Word) -> (le: bool)
        ensures
            le == (self.value() <= other.value()),
    {
        let mut i: usize = 0;
        while i < 32
            invariant
                i <= 32,
                forall|j: int| 0 <= j < i ==> self@[j] == other@[j],
            decreases 32 - i,
        {
            if self.bytes[i] < other.bytes[i] {
                proof {
                    lemma_be_value_first_difference(self@, other@, i as int);
                }
                return true;
            }
            if self.bytes[i] > other.bytes[i] {
                proof {
                    lemma_be_value_first_difference(other@, self@, i as int);
                }
                return false;
            }
            i = i + 1;
        }
        assert(self@ =~= other@);
        true
    }

    /// The number as a single byte, if it is below 256.
    pub fn to_byte(&self) -> (byte: Option<u8>)
        ensures
            byte is Some <==> self.value() < 256,
            byte matches Some(b) ==> b == self.value(),
    {
        let high_zero = zero_between(self.bytes.as_slice(), 0, 31);
        proof {
            assert(self@.subrange(0, 31) =~= self@.drop_last());
            lemma_be_value_zero(self@.drop_last());
        }
        if high_zero {
            Some(self.bytes[31])
        } else {
            None
        }
    }

    /// The word that denotes `n`.
    pub fn from_u32(n: u32) -> (word: Word)
        ensures
            word.value() == n,
    {
        let mut bytes = [0u8; 32];
        bytes[28] = (n / 0x100_0000) as u8;
        bytes[29] = (n / 0x1_0000 % 0x100) as u8;
        bytes[30] = (n / 0x100 % 0x100) as u8;
        bytes[31] = (n % 0x100) as u8;
        let word = Word { bytes };
        proof {
            let high = word@.subrange(0, 28);
            let low = word@.subrange(28, 32);
            assert(word@ =~= high + low);
            lemma_be_value_concat(high, low);
            assert(all_zero(high));
            lemma_be_value_zero(high);
            reveal_with_fuel(pow256, 5);
            assert(pow256(4) == 0x1_0000_0000);
            assert(word.value() == be_value(high) * 0x1_0000_0000 + be_value(low));
            reveal_with_fuel(be_value, 5);
            assert(low.drop_last().drop_last().drop_last().drop_last().len() == 0);
            assert(n / 0x1_0000 == (n / 0x100) / 0x100) by (bit_vector);
            assert(n / 0x100_0000 == (n / 0x1_0000) / 0x100) by (bit_vector);
            assert(low[0] == n / 0x100_0000);
            assert(low[1] == n / 0x1_0000 % 0x100);
            assert(low[2] == n / 0x100 % 0x100);
            assert(low[3] == n % 0x100);
            assert(be_value(low) == ((low[0] as nat * 256 + low[1] as nat) * 256 + low[2] as nat)
                * 256 + low[3] as nat);
        }
        word
    }
}

/// The byte sequences of a list of words, in order.
pub open spec fn word_views(words: Seq<Word>) -> Seq<Seq<u8>> {
    words.map_values(|w: Word| w@)
}

} // verus!
