use cap9_kernel::error::KernelError;
use cap9_kernel::identity::procedure_key;
use cap9_kernel::kernel::{
    call, complete, deploy, Action, DenialPolicy, KernelContract, KernelInterface, KERNEL_RESERVE,
};
use cap9_kernel::word::{Address, Word};
use std::cell::Cell;

fn num(n: u128) -> Word {
    let mut bytes = [0u8; 32];
    bytes[16..].copy_from_slice(&n.to_be_bytes());
    Word { bytes }
}

fn addr(fill: u8) -> Address {
    Address { bytes: [fill; 20] }
}

fn pattern(prefix: u8, name: &str) -> Word {
    let mut bytes = [0u8; 32];
    bytes[0] = prefix;
    bytes[8..].copy_from_slice(&procedure_key(name));
    Word { bytes }
}

fn account(call_any: u8, send_value: u8, address: Address) -> Word {
    let mut bytes = [0u8; 32];
    bytes[0] = call_any;
    bytes[1] = send_value;
    bytes[12..].copy_from_slice(&address.bytes);
    Word { bytes }
}

fn envelope(tag: u8, parts: &[&[u8]]) -> Vec<u8> {
    let mut bytes = vec![1u8, tag];
    for part in parts {
        bytes.extend_from_slice(part);
    }
    bytes
}

fn write_request(key: u128, value: u128) -> Vec<u8> {
    envelope(7, &[&num(key).bytes, &num(value).bytes])
}

fn full_capabilities() -> Vec<Word> {
    vec![
        num(3), num(3), pattern(32, "lib/"),
        num(3), num(4), pattern(32, "lib/"),
        num(3), num(5), pattern(32, "lib/"),
        num(4), num(7), num(0x100), num(0x1ff),
        num(7), num(8), num(1), num(0xaa), num(0), num(0), num(0),
        num(3), num(9), account(0, 0, addr(0x77)),
    ]
}

fn running(capabilities: Vec<Word>) -> KernelContract {
    let mut kernel = KernelContract::new();
    kernel.constructor(String::from("init"), addr(0xe1), capabilities).unwrap();
    assert_eq!(
        call(&mut kernel, b"start", 50_000),
        Ok(Action::RunEntry { address: addr(0xe1), budget: 40_000, payload: b"start".to_vec() })
    );
    kernel
}

#[test]
fn reserve_is_ten_thousand() {
    assert_eq!(KERNEL_RESERVE, 10_000);
}

#[test]
fn constructor_installs_the_entry_procedure() {
    let mut kernel = KernelContract::new();
    assert_eq!(kernel.entryProcedure(), [0u8; 24]);
    assert_eq!(kernel.constructor(String::from("init"), addr(0xe1), Vec::new()), Ok(()));
    assert_eq!(kernel.entryProcedure(), procedure_key("init"));
    assert_eq!(kernel.currentProcedure(), [0u8; 24]);
    assert_eq!(kernel.getProcedureByKey(String::from("init")), addr(0xe1));
    assert_eq!(kernel.table().lookup_address(&procedure_key("init")), Some(addr(0xe1)));
    assert_eq!(kernel.get_cap_type_len(String::from("init"), num(7)), num(0));
}

#[test]
fn constructor_fails_on_a_bad_capability_list_and_changes_nothing() {
    let mut kernel = KernelContract::new();
    assert_eq!(
        kernel.constructor(String::from("init"), addr(0xe1), vec![num(2)]),
        Err(KernelError::MalformedCapability)
    );
    assert_eq!(kernel.entryProcedure(), [0u8; 24]);
    assert_eq!(kernel.getProcedureByKey(String::from("init")), Address::zero());
    assert_eq!(
        kernel.constructor(
            String::from("init"),
            addr(0xe1),
            vec![num(4), num(7), num(9), num(1)]
        ),
        Err(KernelError::InvalidCapabilityList)
    );
    assert_eq!(kernel.entryProcedure(), [0u8; 24]);
    assert_eq!(kernel.getProcedureByKey(String::from("init")), Address::zero());
}

#[test]
fn deploy_creates_and_constructs() {
    let mut kernel = deploy(String::from("init"), addr(0xe1), full_capabilities()).unwrap();
    assert_eq!(kernel.entryProcedure(), procedure_key("init"));
    assert_eq!(kernel.currentProcedure(), [0u8; 24]);
    assert_eq!(kernel.getProcedureByKey(String::from("init")), addr(0xe1));
    assert_eq!(kernel.get_mode(), 0);
    assert_eq!(kernel.denial_policy(), DenialPolicy::Ignore);
    assert_eq!(kernel.get_cap_type_len(String::from("init"), num(3)), num(1));
    assert!(matches!(
        deploy(String::from("init"), addr(0xe1), vec![num(2), num(1)]),
        Err(KernelError::MalformedCapability)
    ));
    assert!(matches!(
        deploy(String::from("init"), addr(0xe1), vec![num(3), num(3), pattern(193, "x")]),
        Err(KernelError::InvalidCapabilityList)
    ));
}

#[test]
fn lookup_miss_returns_the_zero_address() {
    let mut kernel = KernelContract::new();
    kernel.constructor(String::from("init"), addr(0xe1), Vec::new()).unwrap();
    assert_eq!(kernel.getProcedureByKey(String::from("nonexistent")), Address::zero());
    assert_eq!(kernel.getProcedureByKey(String::from("nonexistent")).bytes, [0u8; 20]);
    assert_eq!(kernel.get_cap_type_len(String::from("nonexistent"), num(7)), num(0));
}

#[test]
fn cap_type_len_counts_capabilities_of_the_given_type() {
    let mut kernel = KernelContract::new();
    let capabilities = vec![
        num(4), num(7), num(0), num(9),
        num(2), num(6),
        num(4), num(7), num(20), num(29),
    ];
    kernel.constructor(String::from("init"), addr(0xe1), capabilities).unwrap();
    assert_eq!(kernel.get_cap_type_len(String::from("init"), num(7)), num(2));
    assert_eq!(kernel.get_cap_type_len(String::from("init"), num(6)), num(1));
    assert_eq!(kernel.get_cap_type_len(String::from("init"), num(3)), num(0));
}

#[test]
fn cap_type_len_is_zero_for_a_number_that_is_no_type() {
    let mut kernel = KernelContract::new();
    let capabilities = vec![num(4), num(7), num(0), num(9), num(2), num(6)];
    kernel.constructor(String::from("init"), addr(0xe1), capabilities).unwrap();
    assert_eq!(kernel.get_cap_type_len(String::from("init"), num(7)), num(1));
    assert_eq!(kernel.get_cap_type_len(String::from("init"), num(256 + 7)), num(0));
    assert_eq!(kernel.get_cap_type_len(String::from("init"), num(0xffff_ff06)), num(0));
    assert_eq!(kernel.get_cap_type_len(String::from("init"), num(0x1_0000_0007)), num(0));
    assert_eq!(kernel.get_cap_type_len(String::from("init"), num(u128::MAX)), num(0));
    let mut top = num(7);
    top.bytes[0] = 1;
    assert_eq!(kernel.get_cap_type_len(String::from("init"), top), num(0));
    assert_eq!(kernel.get_cap_type_len(String::from("init"), num(0)), num(0));
    assert_eq!(kernel.get_cap_type_len(String::from("init"), num(200)), num(0));
}

#[test]
fn toggle_switches_the_mode() {
    let mut kernel = KernelContract::new();
    assert_eq!(kernel.get_mode(), 0);
    kernel.toggle_syscall();
    assert_eq!(kernel.get_mode(), 1);
    kernel.toggle_syscall();
    assert_eq!(kernel.get_mode(), 0);
}

#[test]
fn deployed_kernel_runs_the_entry_procedure_on_its_first_call() {
    let mut kernel = deploy(String::from("init"), addr(0xe1), Vec::new()).unwrap();
    assert_eq!(kernel.get_mode(), 0);
    assert_eq!(
        call(&mut kernel, b"first", 50_000),
        Ok(Action::RunEntry { address: addr(0xe1), budget: 40_000, payload: b"first".to_vec() })
    );
    assert_eq!(kernel.currentProcedure(), procedure_key("init"));
}

#[test]
fn mode_flag_decides_nothing() {
    let mut off = deploy(String::from("init"), addr(0xe1), full_capabilities()).unwrap();
    let mut on = deploy(String::from("init"), addr(0xe1), full_capabilities()).unwrap();
    on.toggle_syscall();
    assert_eq!(off.get_mode(), 0);
    assert_eq!(on.get_mode(), 1);
    let payloads = vec![
        b"start".to_vec(),
        write_request(0x100, 42),
        write_request(0x200, 42),
        envelope(4, &[&procedure_key("lib/math"), &addr(0x42).bytes]),
        envelope(3, &[&procedure_key("lib/math"), b"2+2"]),
        b"garbled".to_vec(),
    ];
    for payload in &payloads {
        assert_eq!(call(&mut off, payload, 50_000), call(&mut on, payload, 50_000));
        assert_eq!(off.currentProcedure(), on.currentProcedure());
    }
    off.toggle_syscall();
    assert_eq!(call(&mut off, &write_request(0x1ff, 1), 0), call(&mut on, &write_request(0x1ff, 1), 0));
    assert_eq!(off.getProcedureByKey(String::from("lib/math")), addr(0x42));
    assert_eq!(off.get_mode(), 1);
}

#[test]
fn idle_kernel_without_entry_procedure_fails() {
    let mut kernel = KernelContract::new();
    assert_eq!(call(&mut kernel, b"x", 50_000), Err(KernelError::MissingEntryProcedure));
    assert_eq!(kernel.currentProcedure(), [0u8; 24]);
    assert_eq!(call(&mut kernel, &write_request(1, 2), 50_000), Err(KernelError::MissingEntryProcedure));
}

#[test]
fn zero_identity_names_no_entry_procedure() {
    let mut kernel = KernelContract::new();
    assert_eq!(kernel.constructor(String::new(), addr(0xe1), Vec::new()), Ok(()));
    assert_eq!(kernel.entryProcedure(), [0u8; 24]);
    assert_eq!(kernel.getProcedureByKey(String::new()), addr(0xe1));
    assert_eq!(call(&mut kernel, b"x", 50_000), Err(KernelError::MissingEntryProcedure));
    assert_eq!(kernel.currentProcedure(), [0u8; 24]);
    let mut padded = deploy(String::from("\0\0"), addr(0xe1), Vec::new()).unwrap();
    assert_eq!(call(&mut padded, b"x", 50_000), Err(KernelError::MissingEntryProcedure));
}

#[test]
fn current_procedure_is_the_entry_only_during_the_nested_call() {
    let mut kernel = KernelContract::new();
    kernel.constructor(String::from("init"), addr(0xe1), Vec::new()).unwrap();
    assert_eq!(kernel.currentProcedure(), [0u8; 24]);
    let step = call(&mut kernel, b"payload", 50_000);
    assert_eq!(
        step,
        Ok(Action::RunEntry { address: addr(0xe1), budget: 40_000, payload: b"payload".to_vec() })
    );
    assert_eq!(kernel.currentProcedure(), procedure_key("init"));
    assert_eq!(kernel.currentProcedure(), kernel.entryProcedure());
    assert_eq!(call(&mut kernel, &write_request(1, 2), 40_000), Ok(Action::Nothing));
    assert_eq!(kernel.currentProcedure(), procedure_key("init"));
    assert_eq!(complete(&mut kernel, Some(b"out".to_vec())), Ok(b"out".to_vec()));
    assert_eq!(kernel.currentProcedure(), [0u8; 24]);
    assert_eq!(kernel.entryProcedure(), procedure_key("init"));
}

#[test]
fn kernel_is_idle_again_even_if_the_nested_call_fails() {
    let mut kernel = running(Vec::new());
    assert_eq!(kernel.currentProcedure(), procedure_key("init"));
    assert_eq!(complete(&mut kernel, None), Err(KernelError::EntryProcedureFailed));
    assert_eq!(kernel.currentProcedure(), [0u8; 24]);
    assert_eq!(
        call(&mut kernel, b"again", 10_001),
        Ok(Action::RunEntry { address: addr(0xe1), budget: 1, payload: b"again".to_vec() })
    );
}

#[test]
fn budget_is_what_is_left_after_the_reserve() {
    let mut kernel = KernelContract::new();
    kernel.constructor(String::from("init"), addr(0xe1), Vec::new()).unwrap();
    assert_eq!(call(&mut kernel, b"", 9_999), Err(KernelError::BudgetExhausted));
    assert_eq!(kernel.currentProcedure(), [0u8; 24]);
    assert_eq!(call(&mut kernel, b"", 0), Err(KernelError::BudgetExhausted));
    assert_eq!(
        call(&mut kernel, b"", 10_000),
        Ok(Action::RunEntry { address: addr(0xe1), budget: 0, payload: Vec::new() })
    );
    complete(&mut kernel, Some(Vec::new())).unwrap();
    assert_eq!(
        call(&mut kernel, b"", u64::MAX),
        Ok(Action::RunEntry {
            address: addr(0xe1),
            budget: u64::MAX - 10_000,
            payload: Vec::new(),
        })
    );
}

#[test]
fn procedure_without_capabilities_is_denied_everything() {
    let mut kernel = running(Vec::new());
    let requests = vec![
        write_request(0x100, 1),
        envelope(3, &[&procedure_key("init"), b"p"]),
        envelope(4, &[&procedure_key("lib/new"), &addr(2).bytes]),
        envelope(5, &[&procedure_key("init")]),
        envelope(8, &[&[0u8], b"data"]),
        envelope(9, &[&addr(0x77).bytes, &num(0).bytes]),
    ];
    for request in &requests {
        assert_eq!(call(&mut kernel, request, 40_000), Ok(Action::Nothing));
    }
    assert_eq!(kernel.getProcedureByKey(String::from("lib/new")), Address::zero());
    assert_eq!(kernel.getProcedureByKey(String::from("init")), addr(0xe1));
    assert_eq!(kernel.currentProcedure(), procedure_key("init"));
    assert_eq!(kernel.entryProcedure(), procedure_key("init"));
}

#[test]
fn denial_aborts_under_the_abort_policy() {
    let mut kernel = running(Vec::new());
    kernel.set_denial_policy(DenialPolicy::Abort);
    assert_eq!(kernel.denial_policy(), DenialPolicy::Abort);
    assert_eq!(call(&mut kernel, &write_request(0x100, 1), 40_000), Err(KernelError::Denied));
    assert_eq!(kernel.currentProcedure(), procedure_key("init"));
    kernel.set_denial_policy(DenialPolicy::Ignore);
    assert_eq!(call(&mut kernel, &write_request(0x100, 1), 40_000), Ok(Action::Nothing));
}

#[test]
fn malformed_syscall_is_fatal() {
    let mut kernel = running(full_capabilities());
    let mut truncated = write_request(0x100, 1);
    truncated.pop();
    assert_eq!(call(&mut kernel, &truncated, 40_000), Err(KernelError::MalformedSyscall));
    let mut garbled = write_request(0x100, 1);
    garbled[0] = 0xff;
    assert_eq!(call(&mut kernel, &garbled, 40_000), Err(KernelError::MalformedSyscall));
    assert_eq!(call(&mut kernel, b"", 40_000), Err(KernelError::MalformedSyscall));
    assert_eq!(
        call(&mut kernel, &envelope(6, &[&procedure_key("init")]), 40_000),
        Err(KernelError::MalformedSyscall)
    );
    assert_eq!(kernel.currentProcedure(), procedure_key("init"));
    let mut bare = running(Vec::new());
    assert_eq!(call(&mut bare, &truncated, 40_000), Err(KernelError::MalformedSyscall));
}

#[test]
fn authorized_write_is_handed_to_the_embedder() {
    let mut kernel = running(full_capabilities());
    assert_eq!(
        call(&mut kernel, &write_request(0x100, 42), 40_000),
        Ok(Action::WriteStore { key: num(0x100), value: num(42) })
    );
    assert_eq!(
        call(&mut kernel, &write_request(0x1ff, 43), 0),
        Ok(Action::WriteStore { key: num(0x1ff), value: num(43) })
    );
    assert_eq!(call(&mut kernel, &write_request(0x200, 42), 40_000), Ok(Action::Nothing));
    assert_eq!(call(&mut kernel, &write_request(0xff, 42), 40_000), Ok(Action::Nothing));
}

#[test]
fn authorized_log_and_account_call_are_handed_to_the_embedder() {
    let mut kernel = running(full_capabilities());
    assert_eq!(
        call(&mut kernel, &envelope(8, &[&[1u8], &num(0xaa).bytes, b"data"]), 40_000),
        Ok(Action::EmitLog { topics: vec![num(0xaa)], data: b"data".to_vec() })
    );
    assert_eq!(
        call(&mut kernel, &envelope(8, &[&[1u8], &num(0xab).bytes, b"data"]), 40_000),
        Ok(Action::Nothing)
    );
    assert_eq!(
        call(&mut kernel, &envelope(9, &[&addr(0x77).bytes, &num(0).bytes, b"hi"]), 40_000),
        Ok(Action::CallAccount { address: addr(0x77), value: num(0), payload: b"hi".to_vec() })
    );
    assert_eq!(
        call(&mut kernel, &envelope(9, &[&addr(0x77).bytes, &num(1).bytes, b"hi"]), 40_000),
        Ok(Action::Nothing)
    );
    assert_eq!(
        call(&mut kernel, &envelope(9, &[&addr(0x78).bytes, &num(0).bytes, b"hi"]), 40_000),
        Ok(Action::Nothing)
    );
}

#[test]
fn register_call_and_delete_through_system_calls() {
    let mut kernel = running(full_capabilities());
    let math = procedure_key("lib/math");
    let register = envelope(4, &[&math, &addr(0x42).bytes, &num(2).bytes, &num(6).bytes]);
    assert_eq!(call(&mut kernel, &register, 40_000), Ok(Action::Nothing));
    assert_eq!(kernel.getProcedureByKey(String::from("lib/math")), addr(0x42));
    assert_eq!(kernel.get_cap_type_len(String::from("lib/math"), num(6)), num(1));
    assert_eq!(
        call(&mut kernel, &envelope(3, &[&math, b"2+2"]), 40_000),
        Ok(Action::CallProcedure { address: addr(0x42), payload: b"2+2".to_vec() })
    );
    assert_eq!(kernel.currentProcedure(), procedure_key("init"));
    let again = envelope(4, &[&math, &addr(0x43).bytes]);
    assert_eq!(call(&mut kernel, &again, 40_000), Ok(Action::Nothing));
    assert_eq!(kernel.getProcedureByKey(String::from("lib/math")), addr(0x43));
    assert_eq!(kernel.get_cap_type_len(String::from("lib/math"), num(6)), num(0));
    assert_eq!(call(&mut kernel, &envelope(5, &[&math]), 40_000), Ok(Action::Nothing));
    assert_eq!(kernel.getProcedureByKey(String::from("lib/math")), Address::zero());
    assert_eq!(
        call(&mut kernel, &envelope(3, &[&math, b"2+2"]), 40_000),
        Err(KernelError::UnknownProcedure)
    );
    assert_eq!(call(&mut kernel, &envelope(5, &[&math]), 40_000), Ok(Action::Nothing));
    assert_eq!(kernel.entryProcedure(), procedure_key("init"));
    assert_eq!(kernel.getProcedureByKey(String::from("init")), addr(0xe1));
}

#[test]
fn requests_outside_the_key_pattern_are_denied() {
    let mut kernel = running(full_capabilities());
    let outside = procedure_key("app/evil");
    let register = envelope(4, &[&outside, &addr(0x42).bytes]);
    assert_eq!(call(&mut kernel, &register, 40_000), Ok(Action::Nothing));
    assert_eq!(kernel.getProcedureByKey(String::from("app/evil")), Address::zero());
    assert_eq!(
        call(&mut kernel, &envelope(5, &[&procedure_key("init")]), 40_000),
        Ok(Action::Nothing)
    );
    assert_eq!(kernel.getProcedureByKey(String::from("init")), addr(0xe1));
    assert_eq!(
        call(&mut kernel, &envelope(3, &[&procedure_key("init"), b""]), 40_000),
        Ok(Action::Nothing)
    );
}

#[test]
fn register_with_a_bad_capability_list_fails_and_changes_nothing() {
    let mut kernel = running(full_capabilities());
    let math = procedure_key("lib/math");
    let malformed = envelope(4, &[&math, &addr(0x42).bytes, &num(2).bytes]);
    assert_eq!(call(&mut kernel, &malformed, 40_000), Err(KernelError::MalformedCapability));
    let invalid = envelope(
        4,
        &[
            &math,
            &addr(0x42).bytes,
            &num(4).bytes,
            &num(7).bytes,
            &num(9).bytes,
            &num(1).bytes,
        ],
    );
    assert_eq!(call(&mut kernel, &invalid, 40_000), Err(KernelError::InvalidCapabilityList));
    assert_eq!(kernel.getProcedureByKey(String::from("lib/math")), Address::zero());
}

#[test]
fn check_contract_rejects_the_zero_address_without_asking() {
    let mut kernel = KernelContract::new();
    let asked = Cell::new(0u32);
    let valid = kernel.check_contract(
        Address::zero(),
        |_| {
            asked.set(asked.get() + 1);
            vec![0u8]
        },
        |_| {
            asked.set(asked.get() + 1);
            true
        },
    );
    assert!(!valid);
    assert_eq!(asked.get(), 0);
}

#[test]
fn check_contract_reports_what_the_checker_says_of_the_code() {
    let mut kernel = KernelContract::new();
    let code_of = |a: Address| vec![a.bytes[0], 0x61, 0x73, 0x6d];
    let starts_with_zero = |code: Vec<u8>| code[0] == 0;
    let mut good = [0u8; 20];
    good[19] = 1;
    assert!(kernel.check_contract(Address { bytes: good }, code_of, starts_with_zero));
    assert!(!kernel.check_contract(addr(0x42), code_of, starts_with_zero));
    assert_eq!(kernel.entryProcedure(), [0u8; 24]);
}
