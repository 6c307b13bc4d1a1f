use smart_ir::vm::{decimal_string, rand_address, sha256, try_rsa_verify_sign, VirtualMachine};

#[test]
fn sha256_of_abc() {
    let d = sha256("abc");
    assert_eq!(
        d.to_vec(),
        vec![
            0xba, 0x78, 0x16, 0xbf, 0x8f, 0x01, 0xcf, 0xea, 0x41, 0x41, 0x40, 0xde, 0x5d, 0xae, 0x22, 0x23, 0xb0, 0x03,
            0x61, 0xa3, 0x96, 0x17, 0x7a, 0x9c, 0xb4, 0x10, 0xff, 0x61, 0xf2, 0x00, 0x15, 0xad
        ]
    );
}

#[test]
fn decimal_strings() {
    assert_eq!(decimal_string(0), "0");
    assert_eq!(decimal_string(7), "7");
    assert_eq!(decimal_string(1234567890), "1234567890");
    assert_eq!(decimal_string(u64::MAX), u64::MAX.to_string());
}

#[test]
fn random_address_has_the_address_length() {
    assert_eq!(rand_address().chars().count(), 28);
}

#[test]
fn virtual_machine_context() {
    let vm = VirtualMachine::new(vec![1, 2], "addr".to_string()).unwrap();
    assert_eq!(vm.code, vec![1, 2]);
    assert_eq!(vm.addr, "addr");
    assert_eq!(vm.op_addr, "opration address");
    assert!(vm.input.is_empty() && vm.output.is_empty());
    assert!(vm.context.block_number < (1u64 << 32));
    assert!(vm.context.index < (1u32 << 16));
    assert_eq!(vm.context.hash.chars().count(), 32);
    assert_eq!(vm.context.block_random_seed, sha256(&vm.context.block_number.to_string()));
}

#[test]
fn rsa_rejects_a_malformed_key() {
    assert_eq!(try_rsa_verify_sign(vec![1, 2, 3], vec![], vec![0; 32]), None);
}

#[test]
fn virtual_machine_memory_has_two_pages() {
    let vm = VirtualMachine::new(vec![], "a".to_string()).unwrap();
    assert_eq!(vm.memory.initial(), wasmi::memory_units::Pages(2));
    assert_eq!(vm.memory.maximum(), Some(wasmi::memory_units::Pages(2)));
}

#[test]
fn virtual_machine_from_parts_keeps_each_part() {
    let mem = wasmi::MemoryInstance::alloc(wasmi::memory_units::Pages(1), Some(wasmi::memory_units::Pages(1))).unwrap();
    let vm = VirtualMachine::from_parts(vec![7], "addr".to_string(), mem, 42, 1, 2, 3, 4, "h".to_string(), 5, 6, 7);
    assert_eq!(vm.code, vec![7]);
    assert_eq!(vm.addr, "addr");
    assert_eq!(vm.op_addr, "opration address");
    assert!(vm.input.is_empty() && vm.output.is_empty());
    assert_eq!(vm.memory.initial(), wasmi::memory_units::Pages(1));
    let c = &vm.context;
    assert_eq!((c.block_number, c.block_timestamp, c.timestamp, c.nonce, c.index), (42, 1, 2, 3, 4));
    assert_eq!(c.hash, "h");
    assert_eq!((c.call_gas_left, c.call_gas_limit, c.tx_gas_limit), (5, 6, 7));
    assert_eq!(c.block_random_seed, sha256("42"));
}
