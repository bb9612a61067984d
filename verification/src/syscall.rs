//! System calls: the requests that an executing procedure puts to the kernel, how they are
//! read from the bytes of an invocation, and when a capability authorizes one.

use vstd::prelude::*;
use crate::capability::{
    capability_views, topic_views, whole_words, Capability, CapabilityType, CapabilityView, MAX_PREFIX_BITS,
    MAX_TOPICS,
};
use crate::error::KernelError;
use crate::identity::{key_at, ProcedureKey};
use crate::word::{
    address_at, all_zero, be_value, bytes_between, word_at, word_views, Address, Word,
};

verus! {

/// The version of the request encoding that this kernel reads.
pub const SYSCALL_VERSION: u8 = 1;

/// One privileged operation that a procedure asks for, with its arguments.
///
/// No request claims the entry point: the entry identity is fixed when the kernel is
/// constructed, so a capability of that type authorizes none of these.
#[derive(Debug, PartialEq, Eq)]
pub enum SysCall {
    /// Call the procedure registered under `procedure` with `payload`.
    Call { procedure: ProcedureKey, payload: Vec<u8> },
    /// Register a procedure under `procedure`, with its code at `address` and the capability
    /// list that `capabilities` encodes.
    Register { procedure: ProcedureKey, address: Address, capabilities: Vec<Word> },
    /// Delete the procedure registered under `procedure`.
    Delete { procedure: ProcedureKey },
    /// Write `value` to the storage slot `key`.
    Write { key: Word, value: Word },
    /// Emit a log with `topics` and `data`.
    Log { topics: Vec<Word>, data: Vec<u8> },
    /// Call the external account at `address` with `payload`, sending the amount `value`.
    AccountCall { address: Address, value: Word, payload: Vec<u8> },
}

/// What a request is, in terms of byte sequences: the model that contracts speak of.
pub enum SysCallView {
    Call { procedure: Seq<u8>, payload: Seq<u8> },
    Register { procedure: Seq<u8>, address: Seq<u8>, capabilities: Seq<Seq<u8>> },
    Delete { procedure: Seq<u8> },
    Write { key: Seq<u8>, value: Seq<u8> },
    Log { topics: Seq<Seq<u8>>, data: Seq<u8> },
    AccountCall { address: Seq<u8>, value: Seq<u8>, payload: Seq<u8> },
}

impl View for SysCall {
    type V = SysCallView;

    open spec fn view(&self) -> SysCallView {
        match *self {
            SysCall::Call { procedure, payload } => SysCallView::Call {
                procedure: procedure@,
                payload: payload@,
            },
            SysCall::Register { procedure, address, capabilities } => SysCallView::Register {
                procedure: procedure@,
                address: address@,
                capabilities: word_views(capabilities@),
            },
            SysCall::Delete { procedure } => SysCallView::Delete { procedure: procedure@ },
            SysCall::Write { key, value } => SysCallView::Write { key: key@, value: value@ },
            SysCall::Log { topics, data } => SysCallView::Log {
                topics: word_views(topics@),
                data: data@,
            },
            SysCall::AccountCall { address, value, payload } => SysCallView::AccountCall {
                address: address@,
                value: value@,
                payload: payload@,
            },
        }
    }
}

/// The 32-byte words that `bytes` is made of, in order; a rest of fewer than 32 bytes is
/// left out.
pub open spec fn words_of(bytes: Seq<u8>) -> Seq<Seq<u8>> {
    Seq::new((bytes.len() / 32) as nat, |i: int| bytes.subrange(32 * i, 32 * i + 32))
}

/// The request that the bytes of an invocation encode, if they encode one.
///
/// The first byte is the version, which must be `SYSCALL_VERSION`. The second says which
/// operation is asked for, by the wire number of the capability type that governs it. The
/// arguments follow, each in its full width, byte strings of open length last:
///
/// - call: the identity, then the payload;
/// - register: the identity, the address, then the capability words, a whole number of them;
/// - delete: the identity, and nothing more;
/// - write: the key and the value, and nothing more;
/// - log: the number of topics in one byte, at most `MAX_TOPICS`, the topics, then the data;
/// - account call: the address, the amount, then the payload.
pub open spec fn parse_syscall(input: Seq<u8>) -> Option<SysCallView> {
    let len = input.len() as int;
    if len < 2 || input[0] != SYSCALL_VERSION {
        None
    } else {
        match CapabilityType::spec_from_tag(input[1]) {
            Some(CapabilityType::ProcedureCall) => if len >= 26 {
                Some(
                    SysCallView::Call {
                        procedure: input.subrange(2, 26),
                        payload: input.subrange(26, len),
                    },
                )
            } else {
                None
            },
            Some(CapabilityType::ProcedureRegister) => if len >= 46 && (len - 46) % 32 == 0 {
                Some(
                    SysCallView::Register {
                        procedure: input.subrange(2, 26),
                        address: input.subrange(26, 46),
                        capabilities: words_of(input.subrange(46, len)),
                    },
                )
            } else {
                None
            },
            Some(CapabilityType::ProcedureDelete) => if len == 26 {
                Some(SysCallView::Delete { procedure: input.subrange(2, 26) })
            } else {
                None
            },
            Some(CapabilityType::StoreWrite) => if len == 66 {
                Some(
                    SysCallView::Write {
                        key: input.subrange(2, 34),
                        value: input.subrange(34, 66),
                    },
                )
            } else {
                None
            },
            Some(CapabilityType::Log) => if len >= 3 && input[2] <= MAX_TOPICS && len >= 3 + 32
                * input[2] {
                Some(
                    SysCallView::Log {
                        topics: words_of(input.subrange(3, 3 + 32 * input[2])),
                        data: input.subrange(3 + 32 * input[2], len),
                    },
                )
            } else {
                None
            },
            Some(CapabilityType::AccountCall) => if len >= 54 {
                Some(
                    SysCallView::AccountCall {
                        address: input.subrange(2, 22),
                        value: input.subrange(22, 54),
                        payload: input.subrange(54, len),
                    },
                )
            } else {
                None
            },
            Some(CapabilityType::ProcedureEntry) => None,
            None => None,
        }
    }
}

/// The bytes of a list of words, one word after the other.
pub open spec fn concat_words(words: Seq<Seq<u8>>) -> Seq<u8>
    decreases words.len(),
{
    if words.len() == 0 {
        Seq::empty()
    } else {
        concat_words(words.drop_last()) + words.last()
    }
}

impl SysCallView {
    /// Whether every argument has the width of its kind, and a log no more topics than a
    /// log can carry. Every request that is read from bytes is so.
    pub open spec fn well_formed(self) -> bool {
        match self {
            SysCallView::Call { procedure, .. } => procedure.len() == 24,
            SysCallView::Register { procedure, address, capabilities } => {
                &&& procedure.len() == 24
                &&& address.len() == 20
                &&& whole_words(capabilities)
            },
            SysCallView::Delete { procedure } => procedure.len() == 24,
            SysCallView::Write { key, value } => key.len() == 32 && value.len() == 32,
            SysCallView::Log { topics, .. } => topics.len() <= MAX_TOPICS && whole_words(topics),
            SysCallView::AccountCall { address, value, .. } => address.len() == 20 && value.len()
                == 32,
        }
    }

    /// The bytes that encode the request.
    pub open spec fn encode(self) -> Seq<u8> {
        match self {
            SysCallView::Call { procedure, payload } => seq![SYSCALL_VERSION, 3u8] + procedure
                + payload,
            SysCallView::Register { procedure, address, capabilities } => seq![
                SYSCALL_VERSION,
                4u8,
            ] + procedure + address + concat_words(capabilities),
            SysCallView::Delete { procedure } => seq![SYSCALL_VERSION, 5u8] + procedure,
            SysCallView::Write { key, value } => seq![SYSCALL_VERSION, 7u8] + key + value,
            SysCallView::Log { topics, data } => seq![SYSCALL_VERSION, 8u8, topics.len() as u8]
                + concat_words(topics) + data,
            SysCallView::AccountCall { address, value, payload } => seq![SYSCALL_VERSION, 9u8]
                + address + value + payload,
        }
    }
}

proof fn lemma_concat_words_len(words: Seq<Seq<u8>>)
    requires
        whole_words(words),
    ensures
        concat_words(words).len() == 32 * words.len(),
    decreases words.len(),
{
    if words.len() > 0 {
        lemma_concat_words_len(words.drop_last());
    }
}

proof fn lemma_words_of_concat(words: Seq<Seq<u8>>)
    requires
        whole_words(words),
    ensures
        words_of(concat_words(words)) == words,
    decreases words.len(),
{
    lemma_concat_words_len(words);
    if words.len() > 0 {
        let front = words.drop_last();
        lemma_words_of_concat(front);
        lemma_concat_words_len(front);
        let bytes = concat_words(words);
        assert forall|i: int| 0 <= i < words.len() implies #[trigger] words_of(bytes)[i]
            == words[i] by {
            if i < front.len() {
                assert(bytes.subrange(32 * i, 32 * i + 32) =~= concat_words(front).subrange(
                    32 * i,
                    32 * i + 32,
                ));
                assert(words_of(concat_words(front))[i] == front[i]);
            } else {
                assert(bytes.subrange(32 * i, 32 * i + 32) =~= words.last());
            }
        }
    }
    assert(words_of(concat_words(words)) =~= words);
}

proof fn lemma_concat_words_of(bytes: Seq<u8>)
    requires
        bytes.len() % 32 == 0,
    ensures
        whole_words(words_of(bytes)),
        concat_words(words_of(bytes)) == bytes,
    decreases bytes.len(),
{
    let words = words_of(bytes);
    if bytes.len() > 0 {
        let front = bytes.take(bytes.len() - 32);
        lemma_concat_words_of(front);
        assert(words.drop_last() =~= words_of(front)) by {
            assert forall|i: int| 0 <= i < words.len() - 1 implies words.drop_last()[i]
                == #[trigger] words_of(front)[i] by {
                assert(bytes.subrange(32 * i, 32 * i + 32) =~= front.subrange(32 * i, 32 * i + 32));
            }
        }
        assert(words.last() == bytes.subrange(bytes.len() - 32, bytes.len() as int));
        assert(front + words.last() =~= bytes);
    } else {
        assert(concat_words(words) =~= bytes);
    }
}

/// What is read from bytes is well formed, and the bytes are its encoding: the kernel reads
/// no request from bytes that do not encode it.
pub proof fn parsed_request_encodes_to_input(input: Seq<u8>)
    requires
        parse_syscall(input) is Some,
    ensures
        parse_syscall(input)->Some_0.well_formed(),
        parse_syscall(input)->Some_0.encode() == input,
{
    let request = parse_syscall(input)->Some_0;
    let len = input.len() as int;
    match request {
        SysCallView::Register { capabilities, .. } => {
            lemma_concat_words_of(input.subrange(46, len));
        },
        SysCallView::Log { topics, .. } => {
            lemma_concat_words_of(input.subrange(3, 3 + 32 * input[2]));
        },
        _ => {},
    }
    assert(request.encode() =~= input);
}

/// The encoding of a well-formed request is read back as that request: every request can
/// be put to the kernel, and in one way only.
pub proof fn encoded_request_parses_back(request: SysCallView)
    requires
        request.well_formed(),
    ensures
        parse_syscall(request.encode()) == Some(request),
{
    let input = request.encode();
    let len = input.len() as int;
    match request {
        SysCallView::Call { procedure, payload } => {
            assert(input.subrange(2, 26) =~= procedure);
            assert(input.subrange(26, len) =~= payload);
        },
        SysCallView::Register { procedure, address, capabilities } => {
            lemma_concat_words_len(capabilities);
            lemma_words_of_concat(capabilities);
            assert(input.subrange(2, 26) =~= procedure);
            assert(input.subrange(26, 46) =~= address);
            assert(input.subrange(46, len) =~= concat_words(capabilities));
        },
        SysCallView::Delete { procedure } => {
            assert(input.subrange(2, 26) =~= procedure);
        },
        SysCallView::Write { key, value } => {
            assert(input.subrange(2, 34) =~= key);
            assert(input.subrange(34, 66) =~= value);
        },
        SysCallView::Log { topics, data } => {
            lemma_concat_words_len(topics);
            lemma_words_of_concat(topics);
            assert(input[2] == topics.len());
            assert(input.subrange(3, 3 + 32 * input[2]) =~= concat_words(topics));
            assert(input.subrange(3 + 32 * input[2], len) =~= data);
        },
        SysCallView::AccountCall { address, value, payload } => {
            assert(input.subrange(2, 22) =~= address);
            assert(input.subrange(22, 54) =~= value);
            assert(input.subrange(54, len) =~= payload);
        },
    }
}

fn words_between(input: &[u8], from: usize, count: usize) -> (words: Vec<Word>)
    requires
        from + 32 * count <= input.len(),
    ensures
        word_views(words@) == words_of(input@.subrange(from as int, from + 32 * count)),
{
    let ghost region = input@.subrange(from as int, from + 32 * count);
    let mut words: Vec<Word> = Vec::new();
    let mut i: usize = 0;
    while i < count
        invariant
            i <= count,
            from + 32 * count <= input.len(),
            region == input@.subrange(from as int, from + 32 * count),
            words@.len() == i,
            forall|j: int| 0 <= j < i ==> (#[trigger] words@[j])@ == region.subrange(32 * j, 32 * j + 32),
        decreases count - i,
    {
        let word = word_at(input, from + 32 * i);
        assert(word@ =~= region.subrange(32 * i, 32 * i + 32));
        words.push(word);
        i = i + 1;
    }
    assert(word_views(words@) =~= words_of(region));
    words
}

impl SysCall {
    /// Reads a request from the bytes of an invocation.
    ///
    /// Succeeds exactly on the byte strings that encode a well-formed request, and then
    /// returns that request; anything else is [`KernelError::MalformedSyscall`].
    pub fn parse(input: &[u8]) -> (request: Result<SysCall, KernelError>)
        ensures
            match request {
                Ok(call) => {
                    &&& parse_syscall(input@) == Some(call@)
                    &&& call@.well_formed()
                    &&& call@.encode() == input@
                },
                Err(e) => {
                    &&& e == KernelError::MalformedSyscall
                    &&& parse_syscall(input@) is None
                    &&& forall|r: SysCallView| r.well_formed() ==> #[trigger] r.encode() != input@
                },
            },
    {
        proof {
            if parse_syscall(input@) is Some {
                parsed_request_encodes_to_input(input@);
            } else {
                assert forall|r: SysCallView| r.well_formed() implies #[trigger] r.encode()
                    != input@ by {
                    encoded_request_parses_back(r);
                }
            }
        }
        let len = input.len();
        if len < 2 || input[0] != SYSCALL_VERSION {
            return Err(KernelError::MalformedSyscall);
        }
        match CapabilityType::from_tag(input[1]) {
            Some(CapabilityType::ProcedureCall) => {
                if len < 26 {
                    return Err(KernelError::MalformedSyscall);
                }
                Ok(
                    SysCall::Call {
                        procedure: key_at(input, 2),
                        payload: bytes_between(input, 26, len),
                    },
                )
            },
            Some(CapabilityType::ProcedureRegister) => {
                if len < 46 || (len - 46) % 32 != 0 {
                    return Err(KernelError::MalformedSyscall);
                }
                let count: usize = (len - 46) / 32;
                Ok(
                    SysCall::Register {
                        procedure: key_at(input, 2),
                        address: address_at(input, 26),
                        capabilities: words_between(input, 46, count),
                    },
                )
            },
            Some(CapabilityType::ProcedureDelete) => {
                if len != 26 {
                    return Err(KernelError::MalformedSyscall);
                }
                Ok(SysCall::Delete { procedure: key_at(input, 2) })
            },
            Some(CapabilityType::StoreWrite) => {
                if len != 66 {
                    return Err(KernelError::MalformedSyscall);
                }
                Ok(SysCall::Write { key: word_at(input, 2), value: word_at(input, 34) })
            },
            Some(CapabilityType::Log) => {
                if len < 3 || input[2] > MAX_TOPICS {
                    return Err(KernelError::MalformedSyscall);
                }
                let count: usize = input[2] as usize;
                if len < 3 + 32 * count {
                    return Err(KernelError::MalformedSyscall);
                }
                Ok(
                    SysCall::Log {
                        topics: words_between(input, 3, count),
                        data: bytes_between(input, 3 + 32 * count, len),
                    },
                )
            },
            Some(CapabilityType::AccountCall) => {
                if len < 54 {
                    return Err(KernelError::MalformedSyscall);
                }
                Ok(
                    SysCall::AccountCall {
                        address: address_at(input, 2),
                        value: word_at(input, 22),
                        payload: bytes_between(input, 54, len),
                    },
                )
            },
            Some(CapabilityType::ProcedureEntry) => Err(KernelError::MalformedSyscall),
            None => Err(KernelError::MalformedSyscall),
        }
    }

    /// The type of capability that governs the request.
    pub fn governed_by(&self) -> (kind: CapabilityType)
        ensures
            kind == self@.governed_by(),
    {
        match self {
            SysCall::Call { .. } => CapabilityType::ProcedureCall,
            SysCall::Register { .. } => CapabilityType::ProcedureRegister,
            SysCall::Delete { .. } => CapabilityType::ProcedureDelete,
            SysCall::Write { .. } => CapabilityType::StoreWrite,
            SysCall::Log { .. } => CapabilityType::Log,
            SysCall::AccountCall { .. } => CapabilityType::AccountCall,
        }
    }
}

impl SysCallView {
    /// The type of capability that governs the request.
    pub open spec fn governed_by(self) -> CapabilityType {
        match self {
            SysCallView::Call { .. } => CapabilityType::ProcedureCall,
            SysCallView::Register { .. } => CapabilityType::ProcedureRegister,
            SysCallView::Delete { .. } => CapabilityType::ProcedureDelete,
            SysCallView::Write { .. } => CapabilityType::StoreWrite,
            SysCallView::Log { .. } => CapabilityType::Log,
            SysCallView::AccountCall { .. } => CapabilityType::AccountCall,
        }
    }
}

/// Whether `key` agrees with `pattern` in its first `bits` bits: in the whole bytes that
/// these bits fill, and in the leading bits of the byte after them.
pub open spec fn prefix_matches(pattern: Seq<u8>, bits: u8, key: Seq<u8>) -> bool {
    let whole = (bits / 8) as int;
    let rest = bits % 8;
    &&& forall|i: int| 0 <= i < whole ==> pattern[i] == key[i]
    &&& rest != 0 ==> pattern[whole] >> ((8 - rest) as u8) == key[whole] >> ((8 - rest) as u8)
}

/// Whether a log with `topics` is one that a log capability with `count` and `wanted`
/// describes: it has `count` topics, and each is the wanted one where the wanted one is not
/// the zero word.
pub open spec fn topics_match(count: u8, wanted: Seq<Seq<u8>>, topics: Seq<Seq<u8>>) -> bool {
    &&& topics.len() == count
    &&& forall|i: int| 0 <= i < count ==> all_zero(#[trigger] wanted[i]) || wanted[i] == topics[i]
}

impl CapabilityView {
    /// Whether this capability authorizes `request`. A capability authorizes only requests
    /// that its type governs, and one that is not well formed authorizes nothing.
    pub open spec fn authorizes(self, request: SysCallView) -> bool {
        self.well_formed() && match (self, request) {
            (
                CapabilityView::ProcedureCall { prefix, key },
                SysCallView::Call { procedure, .. },
            ) => prefix_matches(key, prefix, procedure),
            (
                CapabilityView::ProcedureRegister { prefix, key },
                SysCallView::Register { procedure, .. },
            ) => prefix_matches(key, prefix, procedure),
            (
                CapabilityView::ProcedureDelete { prefix, key },
                SysCallView::Delete { procedure },
            ) => prefix_matches(key, prefix, procedure),
            (CapabilityView::StoreWrite { first, last }, SysCallView::Write { key, .. }) => {
                be_value(first) <= be_value(key) <= be_value(last)
            },
            (CapabilityView::Log { count, topics: wanted }, SysCallView::Log { topics, .. }) => {
                topics_match(count, wanted, topics)
            },
            (
                CapabilityView::AccountCall { call_any, send_value, address },
                SysCallView::AccountCall { address: callee, value, .. },
            ) => (call_any || address == callee) && (send_value || be_value(value) == 0),
            _ => false,
        }
    }
}

/// Whether some capability of the list authorizes `request`.
pub open spec fn list_authorizes(caps: Seq<CapabilityView>, request: SysCallView) -> bool {
    exists|i: int| 0 <= i < caps.len() && (#[trigger] caps[i]).authorizes(request)
}

/// A capability authorizes only requests that its type governs.
pub proof fn authorizes_only_own_type(cap: CapabilityView, request: SysCallView)
    ensures
        cap.authorizes(request) ==> cap.kind() == request.governed_by(),
{
}

/// An empty capability list authorizes nothing.
pub proof fn empty_list_authorizes_nothing(request: SysCallView)
    ensures
        !list_authorizes(Seq::empty(), request),
{
}

/// Whether `bits` is a number of bits that a key has, and `key` agrees with `pattern` in its
/// first `bits` bits.
pub fn key_matches(pattern: &ProcedureKey, bits: u8, key: &ProcedureKey) -> (matches: bool)
    ensures
        matches == (bits <= MAX_PREFIX_BITS && prefix_matches(pattern@, bits, key@)),
{
    if bits > MAX_PREFIX_BITS {
        return false;
    }
    let whole: usize = (bits / 8) as usize;
    let rest: u8 = bits % 8;
    let mut i: usize = 0;
    while i < whole
        invariant
            i <= whole <= 24,
            whole == bits / 8,
            forall|j: int| 0 <= j < i ==> pattern@[j] == key@[j],
        decreases whole - i,
    {
        if pattern[i] != key[i] {
            return false;
        }
        i = i + 1;
    }
    if rest != 0 {
        let shift: u8 = 8 - rest;
        (pattern[whole] >> shift) == (key[whole] >> shift)
    } else {
        true
    }
}

fn topics_agree(count: u8, wanted: &[Word; 4], topics: &Vec<Word>) -> (agree: bool)
    requires
        count <= MAX_TOPICS,
    ensures
        agree == topics_match(count, topic_views(*wanted), word_views(topics@)),
{
    if topics.len() != count as usize {
        return false;
    }
    let ghost wanted_views = topic_views(*wanted);
    let mut i: usize = 0;
    while i < count as usize
        invariant
            i <= count <= MAX_TOPICS,
            topics@.len() == count,
            wanted_views == topic_views(*wanted),
            forall|j: int|
                0 <= j < i ==> all_zero(#[trigger] wanted_views[j]) || wanted_views[j]
                    == word_views(topics@)[j],
        decreases count - i,
    {
        if !wanted[i].is_zero() && !wanted[i].same(&topics[i]) {
            assert(!all_zero(wanted_views[i as int]));
            assert(wanted_views[i as int] != word_views(topics@)[i as int]);
            return false;
        }
        i = i + 1;
    }
    true
}

impl Capability {
    /// Whether this capability authorizes `request`.
    pub fn authorizes(&self, request: &SysCall) -> (authorized: bool)
        ensures
            authorized == self@.authorizes(request@),
    {
        if !self.is_well_formed() {
            return false;
        }
        match (self, request) {
            (Capability::ProcedureCall { prefix, key }, SysCall::Call { procedure, .. }) => {
                key_matches(key, *prefix, procedure)
            },
            (
                Capability::ProcedureRegister { prefix, key },
                SysCall::Register { procedure, .. },
            ) => key_matches(key, *prefix, procedure),
            (Capability::ProcedureDelete { prefix, key }, SysCall::Delete { procedure }) => {
                key_matches(key, *prefix, procedure)
            },
            (Capability::StoreWrite { first, last }, SysCall::Write { key, .. }) => {
                first.at_most(key) && key.at_most(last)
            },
            (Capability::Log { count, topics: wanted }, SysCall::Log { topics, .. }) => {
                topics_agree(*count, wanted, topics)
            },
            (
                Capability::AccountCall { call_any, send_value, address },
                SysCall::AccountCall { address: callee, value, .. },
            ) => (*call_any || address.same(callee)) && (*send_value || value.is_zero()),
            _ => false,
        }
    }
}

/// Whether some capability of the list authorizes `request`.
pub fn authorized(caps: &Vec<Capability>, request: &SysCall) -> (yes: bool)
    ensures
        yes == list_authorizes(capability_views(caps@), request@),
{
    let mut i: usize = 0;
    while i < caps.len()
        invariant
            i <= caps.len(),
            forall|j: int|
                0 <= j < i ==> !(#[trigger] capability_views(caps@)[j]).authorizes(request@),
        decreases caps.len() - i,
    {
        if caps[i].authorizes(request) {
            assert(capability_views(caps@)[i as int].authorizes(request@));
            return true;
        }
        i = i + 1;
    }
    false
}

} // verus!
