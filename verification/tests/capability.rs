use cap9_kernel::capability::{
    count_capabilities, decode_capability_list, validate_capability_list, Capability,
    CapabilityType, MAX_PREFIX_BITS, MAX_TOPICS,
};
use cap9_kernel::error::KernelError;
use cap9_kernel::identity::procedure_key;
use cap9_kernel::word::{Address, Word};

fn num(n: u128) -> Word {
    let mut bytes = [0u8; 32];
    bytes[16..].copy_from_slice(&n.to_be_bytes());
    Word { bytes }
}

fn pattern(prefix: u8, name: &str) -> Word {
    let mut bytes = [0u8; 32];
    bytes[0] = prefix;
    bytes[8..].copy_from_slice(&procedure_key(name));
    Word { bytes }
}

fn account(call_any: u8, send_value: u8, address: [u8; 20]) -> Word {
    let mut bytes = [0u8; 32];
    bytes[0] = call_any;
    bytes[1] = send_value;
    bytes[12..].copy_from_slice(&address);
    Word { bytes }
}

#[test]
fn wire_numbers_of_the_capability_types() {
    assert_eq!(CapabilityType::ProcedureCall.tag(), 3);
    assert_eq!(CapabilityType::ProcedureRegister.tag(), 4);
    assert_eq!(CapabilityType::ProcedureDelete.tag(), 5);
    assert_eq!(CapabilityType::ProcedureEntry.tag(), 6);
    assert_eq!(CapabilityType::StoreWrite.tag(), 7);
    assert_eq!(CapabilityType::Log.tag(), 8);
    assert_eq!(CapabilityType::AccountCall.tag(), 9);
    for tag in 0u8..=255 {
        match CapabilityType::from_tag(tag) {
            Some(kind) => assert_eq!(kind.tag(), tag),
            None => assert!(tag < 3 || tag > 9),
        }
    }
    assert_eq!(CapabilityType::from_tag(7), Some(CapabilityType::StoreWrite));
}

#[test]
fn record_lengths_of_the_capability_types() {
    assert_eq!(CapabilityType::ProcedureCall.record_len(), 3);
    assert_eq!(CapabilityType::ProcedureRegister.record_len(), 3);
    assert_eq!(CapabilityType::ProcedureDelete.record_len(), 3);
    assert_eq!(CapabilityType::ProcedureEntry.record_len(), 2);
    assert_eq!(CapabilityType::StoreWrite.record_len(), 4);
    assert_eq!(CapabilityType::Log.record_len(), 7);
    assert_eq!(CapabilityType::AccountCall.record_len(), 3);
}

#[test]
fn empty_word_list_is_the_empty_capability_list() {
    assert_eq!(decode_capability_list(&Vec::new()), Ok(Vec::new()));
}

#[test]
fn decodes_one_capability_of_each_type() {
    let address = [0x11u8; 20];
    let words = vec![
        num(3), num(3), pattern(32, "abcd"),
        num(3), num(4), pattern(0, ""),
        num(3), num(5), pattern(192, "victim"),
        num(2), num(6),
        num(4), num(7), num(0x100), num(0x1ff),
        num(7), num(8), num(2), num(0xaa), num(0), num(0xcc), num(0xdd),
        num(3), num(9), account(0, 1, address),
    ];
    let want = vec![
        Capability::ProcedureCall { prefix: 32, key: procedure_key("abcd") },
        Capability::ProcedureRegister { prefix: 0, key: [0u8; 24] },
        Capability::ProcedureDelete { prefix: 192, key: procedure_key("victim") },
        Capability::ProcedureEntry,
        Capability::StoreWrite { first: num(0x100), last: num(0x1ff) },
        Capability::Log { count: 2, topics: [num(0xaa), num(0), num(0xcc), num(0xdd)] },
        Capability::AccountCall {
            call_any: false,
            send_value: true,
            address: Address { bytes: address },
        },
    ];
    assert_eq!(decode_capability_list(&words), Ok(want));
}

#[test]
fn decoding_accepts_parameters_that_validation_rejects() {
    let words = vec![num(3), num(3), pattern(200, "abcd"), num(4), num(7), num(9), num(1)];
    let caps = decode_capability_list(&words).unwrap();
    assert_eq!(
        caps,
        vec![
            Capability::ProcedureCall { prefix: 200, key: procedure_key("abcd") },
            Capability::StoreWrite { first: num(9), last: num(1) },
        ]
    );
    assert!(!validate_capability_list(&caps));
}

#[test]
fn record_with_the_wrong_length_is_malformed() {
    let bad = Err(KernelError::MalformedCapability);
    assert_eq!(decode_capability_list(&vec![num(4), num(3), pattern(0, ""), num(0)]), bad);
    assert_eq!(decode_capability_list(&vec![num(2), num(3), pattern(0, "")]), bad);
    assert_eq!(decode_capability_list(&vec![num(3), num(6), num(0)]), bad);
    assert_eq!(decode_capability_list(&vec![num(0), num(6)]), bad);
    assert_eq!(decode_capability_list(&vec![num(256 + 2), num(6)]), bad);
}

#[test]
fn record_with_an_unknown_tag_is_malformed() {
    let bad = Err(KernelError::MalformedCapability);
    assert_eq!(decode_capability_list(&vec![num(2), num(0)]), bad);
    assert_eq!(decode_capability_list(&vec![num(2), num(2)]), bad);
    assert_eq!(decode_capability_list(&vec![num(2), num(10)]), bad);
    assert_eq!(decode_capability_list(&vec![num(2), num(256 + 6)]), bad);
}

#[test]
fn truncated_list_is_malformed_not_cut_short() {
    let bad = Err(KernelError::MalformedCapability);
    assert_eq!(decode_capability_list(&vec![num(2)]), bad);
    assert_eq!(decode_capability_list(&vec![num(3), num(3)]), bad);
    assert_eq!(decode_capability_list(&vec![num(4), num(7), num(1)]), bad);
    assert_eq!(decode_capability_list(&vec![num(2), num(6), num(2)]), bad);
    assert_eq!(
        decode_capability_list(&vec![num(2), num(6), num(7), num(8), num(1), num(0), num(0)]),
        bad
    );
}

#[test]
fn parameter_word_with_stray_bytes_is_malformed() {
    let bad = Err(KernelError::MalformedCapability);
    let mut stray = pattern(8, "a");
    stray.bytes[1] = 1;
    assert_eq!(decode_capability_list(&vec![num(3), num(3), stray]), bad);
    let mut stray = pattern(8, "a");
    stray.bytes[7] = 1;
    assert_eq!(decode_capability_list(&vec![num(3), num(5), stray]), bad);
    assert_eq!(decode_capability_list(&vec![num(3), num(9), account(2, 0, [0; 20])]), bad);
    assert_eq!(decode_capability_list(&vec![num(3), num(9), account(0, 2, [0; 20])]), bad);
    let mut stray = account(1, 1, [0; 20]);
    stray.bytes[11] = 1;
    assert_eq!(decode_capability_list(&vec![num(3), num(9), stray]), bad);
    assert_eq!(
        decode_capability_list(&vec![num(7), num(8), num(256), num(0), num(0), num(0), num(0)]),
        bad
    );
}

#[test]
fn kind_names_the_type() {
    assert_eq!(Capability::ProcedureEntry.kind(), CapabilityType::ProcedureEntry);
    assert_eq!(
        Capability::StoreWrite { first: num(0), last: num(0) }.kind(),
        CapabilityType::StoreWrite
    );
    assert_eq!(
        Capability::Log { count: 0, topics: [num(0); 4] }.kind(),
        CapabilityType::Log
    );
}

#[test]
fn well_formedness_is_exact_at_the_limits() {
    assert_eq!(MAX_PREFIX_BITS, 192);
    assert_eq!(MAX_TOPICS, 4);
    let key = procedure_key("k");
    assert!(Capability::ProcedureCall { prefix: 192, key }.is_well_formed());
    assert!(!Capability::ProcedureCall { prefix: 193, key }.is_well_formed());
    assert!(Capability::ProcedureRegister { prefix: 0, key }.is_well_formed());
    assert!(!Capability::ProcedureRegister { prefix: 255, key }.is_well_formed());
    assert!(!Capability::ProcedureDelete { prefix: 200, key }.is_well_formed());
    assert!(Capability::StoreWrite { first: num(5), last: num(5) }.is_well_formed());
    assert!(Capability::StoreWrite { first: num(5), last: num(6) }.is_well_formed());
    assert!(!Capability::StoreWrite { first: num(6), last: num(5) }.is_well_formed());
    assert!(Capability::Log { count: 4, topics: [num(0); 4] }.is_well_formed());
    assert!(!Capability::Log { count: 5, topics: [num(0); 4] }.is_well_formed());
    assert!(Capability::ProcedureEntry.is_well_formed());
    assert!(
        Capability::AccountCall { call_any: true, send_value: true, address: Address::zero() }
            .is_well_formed()
    );
}

#[test]
fn a_list_is_valid_when_every_member_is() {
    let key = procedure_key("k");
    assert!(validate_capability_list(&Vec::new()));
    assert!(validate_capability_list(&vec![
        Capability::ProcedureEntry,
        Capability::ProcedureCall { prefix: 8, key },
    ]));
    assert!(!validate_capability_list(&vec![
        Capability::ProcedureEntry,
        Capability::ProcedureCall { prefix: 193, key },
        Capability::ProcedureEntry,
    ]));
}

#[test]
fn counts_capabilities_by_type() {
    let key = procedure_key("k");
    let caps = vec![
        Capability::StoreWrite { first: num(0), last: num(1) },
        Capability::ProcedureCall { prefix: 8, key },
        Capability::StoreWrite { first: num(2), last: num(3) },
        Capability::ProcedureEntry,
        Capability::StoreWrite { first: num(4), last: num(5) },
    ];
    assert_eq!(count_capabilities(&caps, 7), 3);
    assert_eq!(count_capabilities(&caps, 3), 1);
    assert_eq!(count_capabilities(&caps, 6), 1);
    assert_eq!(count_capabilities(&caps, 8), 0);
    assert_eq!(count_capabilities(&caps, 0), 0);
    assert_eq!(count_capabilities(&Vec::new(), 7), 0);
}
