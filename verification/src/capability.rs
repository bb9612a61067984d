//! The capability model: what a procedure may be permitted to do, and how a list of such
//! permissions is read from host words.

use vstd::prelude::*;
use crate::error::KernelError;
use crate::identity::{key_at, ProcedureKey};
use crate::word::{address_at, all_zero, be_value, word_views, zero_between, Address, Word};

verus! {

/// The kinds of privileged operation that a capability can permit.
#[derive(Clone, Copy, Debug, PartialEq, Eq, Structural)]
pub enum CapabilityType {
    /// Calling another procedure.
    ProcedureCall,
    /// Registering a procedure.
    ProcedureRegister,
    /// Deleting a procedure.
    ProcedureDelete,
    /// Claiming the entry point.
    ProcedureEntry,
    /// Writing persistent storage.
    StoreWrite,
    /// Emitting a log.
    Log,
    /// Calling an external account.
    AccountCall,
}

impl CapabilityType {
    /// The number by which the type is known on the wire.
    pub open spec fn spec_tag(self) -> u8 {
        match self {
            CapabilityType::ProcedureCall => 3,
            CapabilityType::ProcedureRegister => 4,
            CapabilityType::ProcedureDelete => 5,
            CapabilityType::ProcedureEntry => 6,
            CapabilityType::StoreWrite => 7,
            CapabilityType::Log => 8,
            CapabilityType::AccountCall => 9,
        }
    }

    /// The type that a wire number stands for, if any.
    pub open spec fn spec_from_tag(tag: u8) -> Option<CapabilityType> {
        if tag == 3 {
            Some(CapabilityType::ProcedureCall)
        } else if tag == 4 {
            Some(CapabilityType::ProcedureRegister)
        } else if tag == 5 {
            Some(CapabilityType::ProcedureDelete)
        } else if tag == 6 {
            Some(CapabilityType::ProcedureEntry)
        } else if tag == 7 {
            Some(CapabilityType::StoreWrite)
        } else if tag == 8 {
            Some(CapabilityType::Log)
        } else if tag == 9 {
            Some(CapabilityType::AccountCall)
        } else {
            None
        }
    }

    /// The number of words that one encoded capability of this type takes, its length word
    /// and its tag word included.
    pub open spec fn spec_record_len(self) -> usize {
        match self {
            CapabilityType::ProcedureCall => 3,
            CapabilityType::ProcedureRegister => 3,
            CapabilityType::ProcedureDelete => 3,
            CapabilityType::ProcedureEntry => 2,
            CapabilityType::StoreWrite => 4,
            CapabilityType::Log => 7,
            CapabilityType::AccountCall => 3,
        }
    }

    /// The number by which the type is known on the wire.
    #[verifier::when_used_as_spec(spec_tag)]
    pub fn tag(self) -> (tag: u8)
        ensures
            tag == self.spec_tag(),
    {
        match self {
            CapabilityType::ProcedureCall => 3,
            CapabilityType::ProcedureRegister => 4,
            CapabilityType::ProcedureDelete => 5,
            CapabilityType::ProcedureEntry => 6,
            CapabilityType::StoreWrite => 7,
            CapabilityType::Log => 8,
            CapabilityType::AccountCall => 9,
        }
    }

    /// The type that a wire number stands for, if any.
    #[verifier::when_used_as_spec(spec_from_tag)]
    pub fn from_tag(tag: u8) -> (kind: Option<CapabilityType>)
        ensures
            kind == Self::spec_from_tag(tag),
            kind matches Some(k) ==> k.spec_tag() == tag,
            kind is None ==> forall|k: CapabilityType| k.spec_tag() != tag,
    {
        match tag {
            3 => Some(CapabilityType::ProcedureCall),
            4 => Some(CapabilityType::ProcedureRegister),
            5 => Some(CapabilityType::ProcedureDelete),
            6 => Some(CapabilityType::ProcedureEntry),
            7 => Some(CapabilityType::StoreWrite),
            8 => Some(CapabilityType::Log),
            9 => Some(CapabilityType::AccountCall),
            _ => None,
        }
    }

    /// The number of words that one encoded capability of this type takes.
    #[verifier::when_used_as_spec(spec_record_len)]
    pub fn record_len(self) -> (len: usize)
        ensures
            len == self.spec_record_len(),
    {
        match self {
            CapabilityType::ProcedureCall => 3,
            CapabilityType::ProcedureRegister => 3,
            CapabilityType::ProcedureDelete => 3,
            CapabilityType::ProcedureEntry => 2,
            CapabilityType::StoreWrite => 4,
            CapabilityType::Log => 7,
            CapabilityType::AccountCall => 3,
        }
    }
}

/// The greatest number of leading bits that a key pattern can fix: all of them.
pub const MAX_PREFIX_BITS: u8 = 192;

/// The greatest number of topics that a log can carry.
pub const MAX_TOPICS: u8 = 4;

/// A typed grant of permission to perform one category of privileged operation.
#[derive(Clone, Copy, Debug, PartialEq, Eq)]
pub enum Capability {
    /// Permits calling the procedures whose identity agrees with `key` in its first
    /// `prefix` bits.
    ProcedureCall { prefix: u8, key: ProcedureKey },
    /// Permits registering procedures under the identities that agree with `key` in their
    /// first `prefix` bits.
    ProcedureRegister { prefix: u8, key: ProcedureKey },
    /// Permits deleting the procedures whose identity agrees with `key` in its first
    /// `prefix` bits.
    ProcedureDelete { prefix: u8, key: ProcedureKey },
    /// Permits claiming the entry point.
    ProcedureEntry,
    /// Permits writing the storage keys from `first` to `last`, both included.
    StoreWrite { first: Word, last: Word },
    /// Permits logs with exactly `count` topics, of which the `i`-th is `topics[i]` unless
    /// that is the zero word, which stands for any topic.
    Log { count: u8, topics: [Word; 4] },
    /// Permits calling `address`, or any account if `call_any` is set; with an amount other
    /// than zero only if `send_value` is set.
    AccountCall { call_any: bool, send_value: bool, address: Address },
}

/// What a capability is, in terms of byte sequences: the model that contracts speak of.
pub enum CapabilityView {
    ProcedureCall { prefix: u8, key: Seq<u8> },
    ProcedureRegister { prefix: u8, key: Seq<u8> },
    ProcedureDelete { prefix: u8, key: Seq<u8> },
    ProcedureEntry,
    StoreWrite { first: Seq<u8>, last: Seq<u8> },
    Log { count: u8, topics: Seq<Seq<u8>> },
    AccountCall { call_any: bool, send_value: bool, address: Seq<u8> },
}

impl CapabilityView {
    /// The type of the capability.
    pub open spec fn kind(self) -> CapabilityType {
        match self {
            CapabilityView::ProcedureCall { .. } => CapabilityType::ProcedureCall,
            CapabilityView::ProcedureRegister { .. } => CapabilityType::ProcedureRegister,
            CapabilityView::ProcedureDelete { .. } => CapabilityType::ProcedureDelete,
            CapabilityView::ProcedureEntry => CapabilityType::ProcedureEntry,
            CapabilityView::StoreWrite { .. } => CapabilityType::StoreWrite,
            CapabilityView::Log { .. } => CapabilityType::Log,
            CapabilityView::AccountCall { .. } => CapabilityType::AccountCall,
        }
    }

    /// Whether the parameters make sense: a key pattern fixes no more bits than a key has, a
    /// storage range is not empty, a log has no more topics than a log can carry.
    pub open spec fn well_formed(self) -> bool {
        match self {
            CapabilityView::ProcedureCall { prefix, .. } => prefix <= MAX_PREFIX_BITS,
            CapabilityView::ProcedureRegister { prefix, .. } => prefix <= MAX_PREFIX_BITS,
            CapabilityView::ProcedureDelete { prefix, .. } => prefix <= MAX_PREFIX_BITS,
            CapabilityView::ProcedureEntry => true,
            CapabilityView::StoreWrite { first, last } => be_value(first) <= be_value(last),
            CapabilityView::Log { count, .. } => count <= MAX_TOPICS,
            CapabilityView::AccountCall { .. } => true,
        }
    }
}

/// The byte sequences of four topics.
pub open spec fn topic_views(topics: [Word; 4]) -> Seq<Seq<u8>> {
    Seq::new(4, |i: int| topics@[i]@)
}

impl View for Capability {
    type V = CapabilityView;

    open spec fn view(&self) -> CapabilityView {
        match *self {
            Capability::ProcedureCall { prefix, key } => CapabilityView::ProcedureCall {
                prefix,
                key: key@,
            },
            Capability::ProcedureRegister { prefix, key } => CapabilityView::ProcedureRegister {
                prefix,
                key: key@,
            },
            Capability::ProcedureDelete { prefix, key } => CapabilityView::ProcedureDelete {
                prefix,
                key: key@,
            },
            Capability::ProcedureEntry => CapabilityView::ProcedureEntry,
            Capability::StoreWrite { first, last } => CapabilityView::StoreWrite {
                first: first@,
                last: last@,
            },
            Capability::Log { count, topics } => CapabilityView::Log {
                count,
                topics: topic_views(topics),
            },
            Capability::AccountCall { call_any, send_value, address } => CapabilityView::AccountCall {
                call_any,
                send_value,
                address: address@,
            },
        }
    }
}

impl Capability {
    /// The type of the capability.
    pub fn kind(&self) -> (kind: CapabilityType)
        ensures
            kind == self@.kind(),
    {
        match self {
            Capability::ProcedureCall { .. } => CapabilityType::ProcedureCall,
            Capability::ProcedureRegister { .. } => CapabilityType::ProcedureRegister,
            Capability::ProcedureDelete { .. } => CapabilityType::ProcedureDelete,
            Capability::ProcedureEntry => CapabilityType::ProcedureEntry,
            Capability::StoreWrite { .. } => CapabilityType::StoreWrite,
            Capability::Log { .. } => CapabilityType::Log,
            Capability::AccountCall { .. } => CapabilityType::AccountCall,
        }
    }

    /// Whether the parameters make sense.
    pub fn is_well_formed(&self) -> (ok: bool)
        ensures
            ok == self@.well_formed(),
    {
        match self {
            Capability::ProcedureCall { prefix, .. } => *prefix <= MAX_PREFIX_BITS,
            Capability::ProcedureRegister { prefix, .. } => *prefix <= MAX_PREFIX_BITS,
            Capability::ProcedureDelete { prefix, .. } => *prefix <= MAX_PREFIX_BITS,
            Capability::ProcedureEntry => true,
            Capability::StoreWrite { first, last } => first.at_most(last),
            Capability::Log { count, .. } => *count <= MAX_TOPICS,
            Capability::AccountCall { .. } => true,
        }
    }
}

/// The models of a list of capabilities, in order.
pub open spec fn capability_views(caps: Seq<Capability>) -> Seq<CapabilityView> {
    caps.map_values(|c: Capability| c@)
}

/// Whether a capability list can be stored: every capability in it is well formed, and it
/// is short enough for a count of its members to fit in 32 bits.
pub open spec fn valid_capability_list(caps: Seq<CapabilityView>) -> bool {
    &&& caps.len() <= u32::MAX
    &&& forall|i: int| 0 <= i < caps.len() ==> (#[trigger] caps[i]).well_formed()
}

/// How many capabilities of the list have the type with wire number `tag`.
pub open spec fn count_of_type(caps: Seq<CapabilityView>, tag: u8) -> nat
    decreases caps.len(),
{
    if caps.len() == 0 {
        0
    } else {
        count_of_type(caps.drop_last(), tag) + if caps.last().kind().spec_tag() == tag {
            1nat
        } else {
            0nat
        }
    }
}

/// A count of members is at most the length of the list.
pub proof fn count_of_type_bounded(caps: Seq<CapabilityView>, tag: u8)
    ensures
        count_of_type(caps, tag) <= caps.len(),
    decreases caps.len(),
{
    if caps.len() > 0 {
        count_of_type_bounded(caps.drop_last(), tag);
    }
}

/// Whether a capability list can be stored.
pub fn validate_capability_list(caps: &Vec<Capability>) -> (ok: bool)
    ensures
        ok == valid_capability_list(capability_views(caps@)),
{
    if caps.len() > u32::MAX as usize {
        return false;
    }
    let mut i: usize = 0;
    while i < caps.len()
        invariant
            i <= caps.len(),
            forall|j: int| 0 <= j < i ==> (#[trigger] capability_views(caps@)[j]).well_formed(),
        decreases caps.len() - i,
    {
        if !caps[i].is_well_formed() {
            assert(!capability_views(caps@)[i as int].well_formed());
            return false;
        }
        i = i + 1;
    }
    true
}

/// Counts the capabilities of the list whose type has the wire number `tag`.
pub fn count_capabilities(caps: &Vec<Capability>, tag: u8) -> (count: usize)
    ensures
        count == count_of_type(capability_views(caps@), tag),
{
    let ghost views = capability_views(caps@);
    let mut count: usize = 0;
    let mut i: usize = 0;
    while i < caps.len()
        invariant
            i <= caps.len(),
            views == capability_views(caps@),
            count == count_of_type(views.take(i as int), tag),
            count <= i,
        decreases caps.len() - i,
    {
        assert(views.take(i + 1).drop_last() =~= views.take(i as int));
        if caps[i].kind().tag() == tag {
            count = count + 1;
        }
        i = i + 1;
    }
    assert(views.take(i as int) =~= views);
    count
}

/// What a key-pattern word holds: the number of fixed bits in its first byte, seven zero
/// bytes, then the key. `None` if the seven bytes are not all zero.
pub open spec fn decode_pattern(word: Seq<u8>) -> Option<(u8, Seq<u8>)> {
    if all_zero(word.subrange(1, 8)) {
        Some((word[0], word.subrange(8, 32)))
    } else {
        None
    }
}

/// What the parameter words of a capability of type `kind` hold, where they start at `at`.
///
/// - A procedure capability has one key-pattern word.
/// - The entry capability has none.
/// - A storage capability has the first and the last key of its range.
/// - A log capability has the number of topics, below 256, and four topic words.
/// - An account capability has one word: a byte that is 1 if any account may be called and
///   0 if not, a byte that is 1 if an amount may be sent and 0 if not, ten zero bytes, and
///   the address.
pub open spec fn decode_parameters(kind: CapabilityType, words: Seq<Seq<u8>>, at: int) -> Option<
    CapabilityView,
> {
    match kind {
        CapabilityType::ProcedureCall => match decode_pattern(words[at]) {
            Some((prefix, key)) => Some(CapabilityView::ProcedureCall { prefix, key }),
            None => None,
        },
        CapabilityType::ProcedureRegister => match decode_pattern(words[at]) {
            Some((prefix, key)) => Some(CapabilityView::ProcedureRegister { prefix, key }),
            None => None,
        },
        CapabilityType::ProcedureDelete => match decode_pattern(words[at]) {
            Some((prefix, key)) => Some(CapabilityView::ProcedureDelete { prefix, key }),
            None => None,
        },
        CapabilityType::ProcedureEntry => Some(CapabilityView::ProcedureEntry),
        CapabilityType::StoreWrite => Some(
            CapabilityView::StoreWrite { first: words[at], last: words[at + 1] },
        ),
        CapabilityType::Log => if be_value(words[at]) < 256 {
            Some(
                CapabilityView::Log {
                    count: be_value(words[at]) as u8,
                    topics: Seq::new(4, |i: int| words[at + 1 + i]),
                },
            )
        } else {
            None
        },
        CapabilityType::AccountCall => {
            let word = words[at];
            if word[0] <= 1 && word[1] <= 1 && all_zero(word.subrange(2, 12)) {
                Some(
                    CapabilityView::AccountCall {
                        call_any: word[0] == 1,
                        send_value: word[1] == 1,
                        address: word.subrange(12, 32),
                    },
                )
            } else {
                None
            }
        },
    }
}

/// The capability whose record starts at word `pos`, and the position after the record.
///
/// A record is a length word, a tag word and the parameter words. Both numbers must be
/// below 256, the tag must be that of a capability type, the length must be the number of
/// words that the type takes, and that many words must be there.
pub open spec fn decode_record(words: Seq<Seq<u8>>, pos: int) -> Option<(CapabilityView, int)> {
    if pos + 2 > words.len() {
        None
    } else if be_value(words[pos]) >= 256 || be_value(words[pos + 1]) >= 256 {
        None
    } else {
        match CapabilityType::spec_from_tag(be_value(words[pos + 1]) as u8) {
            None => None,
            Some(kind) => if be_value(words[pos]) != kind.spec_record_len() || pos
                + kind.spec_record_len() > words.len() {
                None
            } else {
                match decode_parameters(kind, words, pos + 2) {
                    None => None,
                    Some(cap) => Some((cap, pos + kind.spec_record_len())),
                }
            },
        }
    }
}

/// The capabilities whose records fill the words from `pos` to the end, in order; `None` if
/// the words from there on are not a run of whole records.
pub open spec fn decode_from(words: Seq<Seq<u8>>, pos: int) -> Option<Seq<CapabilityView>>
    decreases words.len() - pos,
{
    if pos >= words.len() {
        Some(Seq::empty())
    } else {
        match decode_record(words, pos) {
            None => None,
            Some((cap, next)) => if next <= pos {
                None
            } else {
                match decode_from(words, next) {
                    None => None,
                    Some(rest) => Some(seq![cap] + rest),
                }
            },
        }
    }
}

/// The capability list that a sequence of words encodes, if it encodes one.
pub open spec fn decode_capabilities(words: Seq<Seq<u8>>) -> Option<Seq<CapabilityView>> {
    decode_from(words, 0)
}

/// The word that denotes the number `n`.
pub open spec fn byte_word(n: u8) -> Seq<u8> {
    Seq::new(32, |i: int| if i == 31 { n } else { 0u8 })
}

/// The key-pattern word for `prefix` and `key`.
pub open spec fn pattern_word(prefix: u8, key: Seq<u8>) -> Seq<u8> {
    seq![prefix] + Seq::new(7, |i: int| 0u8) + key
}

/// The parameter word of an account capability.
pub open spec fn account_word(call_any: bool, send_value: bool, address: Seq<u8>) -> Seq<u8> {
    seq![if call_any { 1u8 } else { 0u8 }, if send_value { 1u8 } else { 0u8 }] + Seq::new(
        10,
        |i: int| 0u8,
    ) + address
}

/// Every word of the list has 32 bytes.
pub open spec fn whole_words(words: Seq<Seq<u8>>) -> bool {
    forall|i: int| 0 <= i < words.len() ==> (#[trigger] words[i]).len() == 32
}

impl CapabilityView {
    /// Whether every parameter has the width of its kind. Every capability that is read
    /// from words is so.
    pub open spec fn fits_wire(self) -> bool {
        match self {
            CapabilityView::ProcedureCall { key, .. } => key.len() == 24,
            CapabilityView::ProcedureRegister { key, .. } => key.len() == 24,
            CapabilityView::ProcedureDelete { key, .. } => key.len() == 24,
            CapabilityView::ProcedureEntry => true,
            CapabilityView::StoreWrite { first, last } => first.len() == 32 && last.len() == 32,
            CapabilityView::Log { topics, .. } => topics.len() == 4 && whole_words(topics),
            CapabilityView::AccountCall { address, .. } => address.len() == 20,
        }
    }

    /// The parameter words of the capability's record.
    pub open spec fn parameter_words(self) -> Seq<Seq<u8>> {
        match self {
            CapabilityView::ProcedureCall { prefix, key } => seq![pattern_word(prefix, key)],
            CapabilityView::ProcedureRegister { prefix, key } => seq![pattern_word(prefix, key)],
            CapabilityView::ProcedureDelete { prefix, key } => seq![pattern_word(prefix, key)],
            CapabilityView::ProcedureEntry => Seq::empty(),
            CapabilityView::StoreWrite { first, last } => seq![first, last],
            CapabilityView::Log { count, topics } => seq![byte_word(count)] + topics,
            CapabilityView::AccountCall { call_any, send_value, address } => seq![
                account_word(call_any, send_value, address),
            ],
        }
    }

    /// The record that encodes the capability: its length, its tag, its parameters.
    pub open spec fn encode(self) -> Seq<Seq<u8>> {
        seq![byte_word(self.kind().spec_record_len() as u8), byte_word(self.kind().spec_tag())]
            + self.parameter_words()
    }
}

/// The words that encode a capability list: the records of its members, in order.
pub open spec fn encode_capabilities(caps: Seq<CapabilityView>) -> Seq<Seq<u8>>
    decreases caps.len(),
{
    if caps.len() == 0 {
        Seq::empty()
    } else {
        caps.first().encode() + encode_capabilities(caps.drop_first())
    }
}

/// Every member of the list has parameters of the right widths.
pub open spec fn all_fit_wire(caps: Seq<CapabilityView>) -> bool {
    forall|i: int| 0 <= i < caps.len() ==> (#[trigger] caps[i]).fits_wire()
}

proof fn lemma_byte_word(n: u8)
    ensures
        byte_word(n).len() == 32,
        be_value(byte_word(n)) == n,
{
    let w = byte_word(n);
    crate::word::lemma_be_value_zero(w.drop_last());
    assert(all_zero(w.drop_last()));
}

proof fn lemma_small_word(w: Seq<u8>)
    requires
        w.len() == 32,
        be_value(w) < 256,
    ensures
        w == byte_word(be_value(w) as u8),
{
    crate::word::lemma_be_value_zero(w.drop_last());
    assert(be_value(w.drop_last()) == 0);
    assert forall|i: int| 0 <= i < 32 implies w[i] == byte_word(be_value(w) as u8)[i] by {
        if i < 31 {
            assert(w.drop_last()[i] == w[i]);
        }
    }
    assert(w =~= byte_word(be_value(w) as u8));
}

proof fn lemma_record_decodes(cap: CapabilityView, rest: Seq<Seq<u8>>)
    requires
        cap.fits_wire(),
    ensures
        whole_words(cap.encode()),
        cap.encode().len() == cap.kind().spec_record_len(),
        decode_record(cap.encode() + rest, 0) == Some((cap, cap.encode().len() as int)),
{
    let words = cap.encode() + rest;
    lemma_byte_word(cap.kind().spec_record_len() as u8);
    lemma_byte_word(cap.kind().spec_tag());
    assert(words[0] == byte_word(cap.kind().spec_record_len() as u8));
    assert(words[1] == byte_word(cap.kind().spec_tag()));
    match cap {
        CapabilityView::ProcedureCall { prefix, key } => {
            assert(words[2] == pattern_word(prefix, key));
            assert(words[2].subrange(8, 32) =~= key);
        },
        CapabilityView::ProcedureRegister { prefix, key } => {
            assert(words[2] == pattern_word(prefix, key));
            assert(words[2].subrange(8, 32) =~= key);
        },
        CapabilityView::ProcedureDelete { prefix, key } => {
            assert(words[2] == pattern_word(prefix, key));
            assert(words[2].subrange(8, 32) =~= key);
        },
        CapabilityView::ProcedureEntry => {},
        CapabilityView::StoreWrite { first, last } => {
            assert(words[2] == first);
            assert(words[3] == last);
        },
        CapabilityView::Log { count, topics } => {
            lemma_byte_word(count);
            assert(words[2] == byte_word(count));
            assert(Seq::new(4, |i: int| words[2 + 1 + i]) =~= topics);
        },
        CapabilityView::AccountCall { call_any, send_value, address } => {
            assert(words[2] == account_word(call_any, send_value, address));
            assert(words[2].subrange(12, 32) =~= address);
        },
    }
}

proof fn lemma_decode_record_shift(before: Seq<Seq<u8>>, words: Seq<Seq<u8>>, pos: int)
    requires
        0 <= pos,
    ensures
        decode_record(before + words, before.len() + pos) == match decode_record(words, pos) {
            None => None::<(CapabilityView, int)>,
            Some((cap, next)) => Some((cap, before.len() + next)),
        },
{
    let all = before + words;
    let at = before.len() as int + pos;
    if pos + 2 <= words.len() {
        assert(all[at] == words[pos]);
        assert(all[at + 1] == words[pos + 1]);
        if be_value(words[pos]) < 256 && be_value(words[pos + 1]) < 256 {
            match CapabilityType::spec_from_tag(be_value(words[pos + 1]) as u8) {
                None => {},
                Some(kind) => {
                    if pos + kind.spec_record_len() <= words.len() {
                        if 2 < kind.spec_record_len() {
                            assert(all[at + 2] == words[pos + 2]);
                        }
                        if 3 < kind.spec_record_len() {
                            assert(all[at + 3] == words[pos + 3]);
                        }
                        if 6 < kind.spec_record_len() {
                            assert(all[at + 4] == words[pos + 4]);
                            assert(all[at + 5] == words[pos + 5]);
                            assert(all[at + 6] == words[pos + 6]);
                        }
                        if kind == CapabilityType::Log {
                            assert(Seq::new(4, |i: int| all[at + 2 + 1 + i]) =~= Seq::new(
                                4,
                                |i: int| words[pos + 2 + 1 + i],
                            ));
                        }
                    }
                },
            }
        }
    }
}

proof fn lemma_decode_from_shift(before: Seq<Seq<u8>>, words: Seq<Seq<u8>>, pos: int)
    requires
        0 <= pos,
    ensures
        decode_from(before + words, before.len() + pos) == decode_from(words, pos),
    decreases words.len() - pos,
{
    if pos < words.len() {
        lemma_decode_record_shift(before, words, pos);
        match decode_record(words, pos) {
            None => {},
            Some((cap, next)) => {
                if next > pos {
                    lemma_decode_from_shift(before, words, next);
                }
            },
        }
    }
}

/// The encoding of a capability list is read back as that list: every list whose
/// parameters have the right widths can be written down, and reads as itself.
pub proof fn encoded_list_decodes_back(caps: Seq<CapabilityView>)
    requires
        all_fit_wire(caps),
    ensures
        whole_words(encode_capabilities(caps)),
        decode_capabilities(encode_capabilities(caps)) == Some(caps),
    decreases caps.len(),
{
    if caps.len() > 0 {
        let first = caps.first();
        let others = caps.drop_first();
        let rest = encode_capabilities(others);
        assert(all_fit_wire(others)) by {
            assert forall|i: int| 0 <= i < others.len() implies (#[trigger] others[i]).fits_wire() by {
                assert(others[i] == caps[i + 1]);
            }
        }
        encoded_list_decodes_back(others);
        lemma_record_decodes(first, rest);
        lemma_decode_from_shift(first.encode(), rest, 0);
        assert(seq![first] + others =~= caps);
    }
}

proof fn lemma_pattern_word(w: Seq<u8>)
    requires
        w.len() == 32,
        all_zero(w.subrange(1, 8)),
    ensures
        w == pattern_word(w[0], w.subrange(8, 32)),
{
    let p = pattern_word(w[0], w.subrange(8, 32));
    assert forall|k: int| 0 <= k < 32 implies w[k] == p[k] by {
        if 1 <= k < 8 {
            assert(w.subrange(1, 8)[k - 1] == w[k]);
        }
    }
    assert(w =~= p);
}

proof fn lemma_account_word(w: Seq<u8>)
    requires
        w.len() == 32,
        w[0] <= 1,
        w[1] <= 1,
        all_zero(w.subrange(2, 12)),
    ensures
        w == account_word(w[0] == 1, w[1] == 1, w.subrange(12, 32)),
{
    let a = account_word(w[0] == 1, w[1] == 1, w.subrange(12, 32));
    assert forall|k: int| 0 <= k < 32 implies w[k] == a[k] by {
        if 2 <= k < 12 {
            assert(w.subrange(2, 12)[k - 2] == w[k]);
        }
    }
    assert(w =~= a);
}

proof fn lemma_record_encodes(words: Seq<Seq<u8>>, pos: int)
    requires
        whole_words(words),
        0 <= pos,
        decode_record(words, pos) is Some,
    ensures
        decode_record(words, pos)->Some_0.0.fits_wire(),
        pos < decode_record(words, pos)->Some_0.1 <= words.len(),
        decode_record(words, pos)->Some_0.0.encode() == words.subrange(
            pos,
            decode_record(words, pos)->Some_0.1,
        ),
{
    let (cap, next) = decode_record(words, pos)->Some_0;
    let kind = CapabilityType::spec_from_tag(be_value(words[pos + 1]) as u8)->Some_0;
    lemma_small_word(words[pos]);
    lemma_small_word(words[pos + 1]);
    let record = words.subrange(pos, next);
    let at = pos + 2;
    match kind {
        CapabilityType::ProcedureCall => {
            lemma_pattern_word(words[at]);
        },
        CapabilityType::ProcedureRegister => {
            lemma_pattern_word(words[at]);
        },
        CapabilityType::ProcedureDelete => {
            lemma_pattern_word(words[at]);
        },
        CapabilityType::ProcedureEntry => {},
        CapabilityType::StoreWrite => {},
        CapabilityType::Log => {
            lemma_small_word(words[at]);
            assert(cap.parameter_words() =~= words.subrange(at, next));
        },
        CapabilityType::AccountCall => {
            lemma_account_word(words[at]);
        },
    }
    assert(cap.parameter_words() =~= words.subrange(at, next));
    assert(cap.encode() =~= record);
}

proof fn lemma_decoded_from_encodes(words: Seq<Seq<u8>>, pos: int)
    requires
        whole_words(words),
        0 <= pos <= words.len(),
        decode_from(words, pos) is Some,
    ensures
        all_fit_wire(decode_from(words, pos)->Some_0),
        encode_capabilities(decode_from(words, pos)->Some_0) == words.skip(pos),
    decreases words.len() - pos,
{
    let caps = decode_from(words, pos)->Some_0;
    if pos < words.len() {
        let (cap, next) = decode_record(words, pos)->Some_0;
        lemma_record_encodes(words, pos);
        lemma_decoded_from_encodes(words, next);
        let rest = decode_from(words, next)->Some_0;
        assert(caps == seq![cap] + rest);
        assert(caps.first() == cap);
        assert(caps.drop_first() =~= rest);
        assert(words.subrange(pos, next) + words.skip(next) =~= words.skip(pos));
    } else {
        assert(words.skip(pos) =~= Seq::<Seq<u8>>::empty());
    }
}

/// What is read from words has parameters of the right widths, and the words are its
/// encoding: the kernel reads no capability list from words that do not encode it.
pub proof fn decoded_list_encodes_to_words(words: Seq<Seq<u8>>)
    requires
        whole_words(words),
        decode_capabilities(words) is Some,
    ensures
        all_fit_wire(decode_capabilities(words)->Some_0),
        encode_capabilities(decode_capabilities(words)->Some_0) == words,
{
    lemma_decoded_from_encodes(words, 0);
    assert(words.skip(0) =~= words);
}

fn read_pattern(word: &Word) -> (pattern: Option<(u8, ProcedureKey)>)
    ensures
        match pattern {
            Some((prefix, key)) => decode_pattern(word@) == Some((prefix, key@)),
            None => decode_pattern(word@) is None,
        },
{
    if zero_between(word.bytes.as_slice(), 1, 8) {
        Some((word.bytes[0], key_at(word.bytes.as_slice(), 8)))
    } else {
        None
    }
}

fn read_parameters(kind: CapabilityType, words: &Vec<Word>, at: usize) -> (cap: Option<
    Capability,
>)
    requires
        at + kind.spec_record_len() - 2 <= words.len(),
    ensures
        match cap {
            Some(c) => decode_parameters(kind, word_views(words@), at as int) == Some(c@),
            None => decode_parameters(kind, word_views(words@), at as int) is None,
        },
{
    match kind {
        CapabilityType::ProcedureCall => match read_pattern(&words[at]) {
            Some((prefix, key)) => Some(Capability::ProcedureCall { prefix, key }),
            None => None,
        },
        CapabilityType::ProcedureRegister => match read_pattern(&words[at]) {
            Some((prefix, key)) => Some(Capability::ProcedureRegister { prefix, key }),
            None => None,
        },
        CapabilityType::ProcedureDelete => match read_pattern(&words[at]) {
            Some((prefix, key)) => Some(Capability::ProcedureDelete { prefix, key }),
            None => None,
        },
        CapabilityType::ProcedureEntry => Some(Capability::ProcedureEntry),
        CapabilityType::StoreWrite => Some(
            Capability::StoreWrite { first: words[at], last: words[at + 1] },
        ),
        CapabilityType::Log => match words[at].to_byte() {
            Some(count) => {
                let topics = [words[at + 1], words[at + 2], words[at + 3], words[at + 4]];
                assert(topic_views(topics) =~= Seq::new(4, |i: int| word_views(words@)[at + 1 + i]));
                Some(Capability::Log { count, topics })
            },
            None => None,
        },
        CapabilityType::AccountCall => {
            let word = &words[at];
            if word.bytes[0] <= 1 && word.bytes[1] <= 1 && zero_between(
                word.bytes.as_slice(),
                2,
                12,
            ) {
                Some(
                    Capability::AccountCall {
                        call_any: word.bytes[0] == 1,
                        send_value: word.bytes[1] == 1,
                        address: address_at(word.bytes.as_slice(), 12),
                    },
                )
            } else {
                None
            }
        },
    }
}

fn read_record(words: &Vec<Word>, pos: usize) -> (record: Option<(Capability, usize)>)
    requires
        pos < words.len(),
    ensures
        match record {
            Some((cap, next)) => decode_record(word_views(words@), pos as int) == Some((cap@, next as int))
                && pos < next <= words.len(),
            None => decode_record(word_views(words@), pos as int) is None,
        },
{
    if words.len() - pos < 2 {
        return None;
    }
    let len = match words[pos].to_byte() {
        Some(len) => len,
        None => { return None; },
    };
    let tag = match words[pos + 1].to_byte() {
        Some(tag) => tag,
        None => { return None; },
    };
    let kind = match CapabilityType::from_tag(tag) {
        Some(kind) => kind,
        None => { return None; },
    };
    let need = kind.record_len();
    if len as usize != need || words.len() - pos < need {
        return None;
    }
    match read_parameters(kind, words, pos + 2) {
        Some(cap) => Some((cap, pos + need)),
        None => None,
    }
}

fn read_list(words: &Vec<Word>) -> (list: Result<Vec<Capability>, KernelError>)
    ensures
        match list {
            Ok(caps) => decode_capabilities(word_views(words@)) == Some(capability_views(caps@)),
            Err(e) => e == KernelError::MalformedCapability && decode_capabilities(
                word_views(words@),
            ) is None,
        },
{
    let mut caps: Vec<Capability> = Vec::new();
    let mut pos: usize = 0;
    assert(capability_views(caps@) + Seq::<CapabilityView>::empty() =~= Seq::empty());
    while pos < words.len()
        invariant
            pos <= words.len(),
            decode_from(word_views(words@), 0) == match decode_from(word_views(words@), pos as int) {
                None => None::<Seq<CapabilityView>>,
                Some(rest) => Some(capability_views(caps@) + rest),
            },
        decreases words.len() - pos,
    {
        match read_record(words, pos) {
            None => {
                return Err(KernelError::MalformedCapability);
            },
            Some((cap, next)) => {
                proof {
                    let before = capability_views(caps@);
                    let after = capability_views(caps@.push(cap));
                    assert(after =~= before.push(cap@));
                    match decode_from(word_views(words@), next as int) {
                        None => {},
                        Some(rest) => {
                            assert(before + (seq![cap@] + rest) =~= after + rest);
                        },
                    }
                }
                caps.push(cap);
                pos = next;
            },
        }
    }
    assert(capability_views(caps@) + Seq::<CapabilityView>::empty() =~= capability_views(caps@));
    Ok(caps)
}

/// Reads a capability list from its encoding as host words.
///
/// Succeeds exactly on the sequences that are a run of whole, well-shaped records, which
/// are the encodings of capability lists, and then returns the list encoded; anything else
/// is [`KernelError::MalformedCapability`].
pub fn decode_capability_list(words: &Vec<Word>) -> (list: Result<Vec<Capability>, KernelError>)
    ensures
        match list {
            Ok(caps) => {
                &&& decode_capabilities(word_views(words@)) == Some(capability_views(caps@))
                &&& encode_capabilities(capability_views(caps@)) == word_views(words@)
            },
            Err(e) => {
                &&& e == KernelError::MalformedCapability
                &&& decode_capabilities(word_views(words@)) is None
                &&& forall|caps: Seq<CapabilityView>|
                    all_fit_wire(caps) ==> #[trigger] encode_capabilities(caps) != word_views(
                        words@,
                    )
            },
        },
{
    let list = read_list(words);
    proof {
        let given = word_views(words@);
        assert(whole_words(given));
        if decode_capabilities(given) is Some {
            decoded_list_encodes_to_words(given);
        } else {
            assert forall|caps: Seq<CapabilityView>| all_fit_wire(caps) implies (
            #[trigger] encode_capabilities(caps)) != given by {
                encoded_list_decodes_back(caps);
            }
        }
    }
    list
}

} // verus!
