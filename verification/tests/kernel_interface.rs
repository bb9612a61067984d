use cap9_kernel::kernel::{KernelContract, KernelInterface};
use cap9_kernel::word::Address;

fn address(hex_digits: &str) -> Address {
    let bytes = hex::decode(hex_digits).unwrap();
    let mut out = [0u8; 20];
    out.copy_from_slice(&bytes);
    Address { bytes: out }
}

#[test]
fn should_initialize_with_entry_procedure() {
    let mut contract = KernelContract::new();

    let _owner_address = address("ea674fdde714fd979de3edf0f56aa9716b898ec8");
    let entry_proc_key = String::from("init");
    let entry_proc_address = address("db6fd484cfa46eeeb73c71edee823e4812f9e2e1");

    contract
        .constructor(entry_proc_key.clone(), entry_proc_address.clone(), Vec::new())
        .unwrap();

    assert_eq!(&contract.entryProcedure()[0..4], entry_proc_key.as_bytes());
    assert_eq!(contract.currentProcedure(), [0u8; 24]);
}
