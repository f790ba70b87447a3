use riscv_vm::error::VmError;
use riscv_vm::memory::Memory;

#[test]
fn store_load_round_trip_all_widths() {
    // Storing then loading n bytes reconstructs the low n bytes of the value.
    let mut m = Memory::new();
    let v: i64 = 0x1122334455667788;
    for &(n, expect) in &[
        (1usize, 0x88u64),
        (2, 0x7788),
        (4, 0x55667788),
        (8, 0x1122334455667788),
    ] {
        m.store_to(3000, v, n).unwrap();
        assert_eq!(m.load_bytes(3000, n).unwrap(), expect);
    }
}

#[test]
fn store_load_round_trip_negative_value() {
    let mut m = Memory::new();
    m.store_to(2100, -2, 8).unwrap();
    assert_eq!(m.load_from(2100).unwrap(), -2);
    m.store_to(2100, -2, 2).unwrap();
    assert_eq!(m.load_bytes(2100, 2).unwrap(), 0xfffe);
}

#[test]
fn little_endian_byte_order() {
    let mut m = Memory::new();
    m.store_to(2080, 0x0102, 2).unwrap();
    assert_eq!(m.read_byte(2080).unwrap(), 0x02);
    assert_eq!(m.read_byte(2081).unwrap(), 0x01);
}

#[test]
fn negative_address_is_out_of_bounds() {
    let m = Memory::new();
    assert_eq!(m.load_from(-1), Err(VmError::OutOfBounds(-1)));
    assert_eq!(m.load_bytes(-100, 1), Err(VmError::OutOfBounds(-100)));
    let mut m2 = Memory::new();
    assert_eq!(m2.store_to(-8, 5, 8), Err(VmError::OutOfBounds(-8)));
    assert_eq!(m2.write_byte(-1, 0), Err(VmError::OutOfBounds(-1)));
}

#[test]
fn address_at_or_beyond_total_size_is_out_of_bounds() {
    let m = Memory::new();
    assert_eq!(m.load_bytes(4096, 1), Err(VmError::OutOfBounds(4096)));
    assert_eq!(m.load_bytes(5000, 8), Err(VmError::OutOfBounds(5000)));
    // A range that starts inside and runs off the end fails on its last byte.
    assert_eq!(m.load_bytes(4095, 2), Err(VmError::OutOfBounds(4096)));
    let mut m2 = Memory::new();
    assert_eq!(m2.store_to(4096, 1, 1), Err(VmError::OutOfBounds(4096)));
}

#[test]
fn unbacked_heap_address_is_out_of_bounds() {
    // The heap is empty until the break moves, so low addresses are invalid.
    let m = Memory::new();
    assert_eq!(m.read_byte(0), Err(VmError::OutOfBounds(0)));
    assert!(m.read_byte(2048).is_ok());
}

#[test]
fn cross_segment_range_fails() {
    // Start in the heap segment, end in the stack segment.
    let mut m = Memory::new();
    m.set_break(2048).unwrap();
    assert_eq!(m.load_bytes(2044, 8), Err(VmError::CrossSegment(2044, 2051)));
    assert_eq!(m.store_to(2047, 7, 2), Err(VmError::CrossSegment(2047, 2048)));
    // Entirely inside one segment both sides work.
    assert!(m.store_to(2040, 7, 8).is_ok());
    assert!(m.store_to(2048, 7, 8).is_ok());
}

#[test]
fn set_break_grows_and_shrinks_heap() {
    let mut m = Memory::new();
    assert_eq!(m.program_break, 0);
    m.set_break(64).unwrap();
    assert_eq!(m.program_break, 64);
    assert_eq!(m.read_byte(63).unwrap(), 0);
    m.store_to(10, 0x41, 1).unwrap();
    assert_eq!(m.read_byte(10).unwrap(), 0x41);
    m.set_break(4).unwrap();
    assert_eq!(m.program_break, 4);
    assert_eq!(m.read_byte(10), Err(VmError::OutOfBounds(10)));
    assert_eq!(m.set_break(-1), Err(VmError::OutOfBounds(-1)));
}

#[test]
fn set_break_beyond_address_space_over_reserves() {
    // The break itself is unbounded; only the backing store is clamped at
    // the address space, where bytes would be unreachable anyway. A guest
    // that over-reserves can still use every low heap address.
    let mut m = Memory::new();
    m.set_break(1000000).unwrap();
    assert_eq!(m.program_break, 1000000);
    m.store_to(10, 0x42, 1).unwrap();
    assert_eq!(m.read_byte(10).unwrap(), 0x42);
    assert_eq!(m.read_byte(2047).unwrap(), 0);
    // Addresses at or beyond the total size stay invalid.
    assert_eq!(m.read_byte(4096), Err(VmError::OutOfBounds(4096)));
}

#[test]
fn classification_is_by_magnitude() {
    let m = Memory::new();
    assert!(!m.is_stack_address(0));
    assert!(!m.is_stack_address(2047));
    assert!(m.is_stack_address(2048));
    assert!(m.is_stack_address(4095));
    assert!(m.is_stack_address(9999));
    assert!(!m.is_stack_address(-5));
    assert_eq!(m.address_to_index(2048), 0);
    assert_eq!(m.address_to_index(4095), 2047);
}

#[test]
fn configurable_geometry() {
    let mut m = Memory::with_sizes(256, 64);
    assert_eq!(m.virtual_memory_size, 256);
    assert!(m.is_stack_address(192));
    assert!(!m.is_stack_address(191));
    m.store_to(200, 0x7f, 1).unwrap();
    assert_eq!(m.read_byte(200).unwrap(), 0x7f);
    assert_eq!(m.read_byte(256), Err(VmError::OutOfBounds(256)));
}
