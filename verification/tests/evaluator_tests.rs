use riscv_vm::error::VmError;
use riscv_vm::evaluator::{Effect, Evaluator};
use riscv_vm::instruction::decode;
use riscv_vm::registers::{register_index, Registers, POISON, REG_A0, REG_A1, REG_EIP, REG_RA};

fn step(ev: &mut Evaluator, line: &str) -> Result<Effect, VmError> {
    ev.evaluate(&decode(line.as_bytes()))
}

#[test]
fn fresh_registers_are_poisoned_except_zero() {
    let r = Registers::new();
    assert_eq!(r.read(0), 0);
    assert_eq!(r.read(1), POISON);
    assert_eq!(r.read(30), POISON);
}

#[test]
fn register_names_translate() {
    assert_eq!(register_index(b"zero"), Some(0));
    assert_eq!(register_index(b"ra"), Some(1));
    assert_eq!(register_index(b"sp"), Some(2));
    assert_eq!(register_index(b"eip"), Some(3));
    assert_eq!(register_index(b"t0"), Some(4));
    assert_eq!(register_index(b"t6"), Some(10));
    assert_eq!(register_index(b"s0"), Some(11));
    assert_eq!(register_index(b"s9"), Some(20));
    assert_eq!(register_index(b"s10"), Some(21));
    assert_eq!(register_index(b"s11"), Some(22));
    assert_eq!(register_index(b"a0"), Some(23));
    assert_eq!(register_index(b"a7"), Some(30));
    assert_eq!(register_index(b"t7"), None);
    assert_eq!(register_index(b"s12"), None);
    assert_eq!(register_index(b"q9"), None);
    assert_eq!(register_index(b""), None);
    let r = Registers::new();
    assert!(r.has_register(b"t3"));
    assert!(!r.has_register(b"x1"));
}

#[test]
fn arithmetic_and_immediates() {
    let mut ev = Evaluator::new();
    step(&mut ev, "li a0, 6").unwrap();
    step(&mut ev, "li a1, 7").unwrap();
    step(&mut ev, "mul a2, a0, a1").unwrap();
    assert_eq!(ev.registers.read(25), 42);
    step(&mut ev, "sub a3, a2, a1").unwrap();
    assert_eq!(ev.registers.read(26), 35);
    step(&mut ev, "divw a4, a2, a1").unwrap();
    assert_eq!(ev.registers.read(27), 6);
    step(&mut ev, "remw a5, a2, a0").unwrap();
    assert_eq!(ev.registers.read(28), 0);
    step(&mut ev, "addi a0, a0, -10").unwrap();
    assert_eq!(ev.registers.read(REG_A0), -4);
    step(&mut ev, "inc a0").unwrap();
    step(&mut ev, "inc a0").unwrap();
    step(&mut ev, "dec a0").unwrap();
    assert_eq!(ev.registers.read(REG_A0), -3);
    step(&mut ev, "negw a0, a0").unwrap();
    assert_eq!(ev.registers.read(REG_A0), 3);
}

#[test]
fn hex_immediates_and_bit_ops() {
    let mut ev = Evaluator::new();
    step(&mut ev, "li a0, 0x10").unwrap();
    assert_eq!(ev.registers.read(REG_A0), 16);
    step(&mut ev, "ori a1, a0, 0x3").unwrap();
    assert_eq!(ev.registers.read(REG_A1), 19);
    step(&mut ev, "andi a2, a1, 0x12").unwrap();
    assert_eq!(ev.registers.read(25), 18);
    step(&mut ev, "slli a3, a0, 4").unwrap();
    assert_eq!(ev.registers.read(26), 256);
    step(&mut ev, "srli a4, a3, 0x8").unwrap();
    assert_eq!(ev.registers.read(27), 1);
    step(&mut ev, "li a5, -8").unwrap();
    step(&mut ev, "sraiw a6, a5, 2").unwrap();
    assert_eq!(ev.registers.read(29), -2);
    // Shift amounts are masked to five bits: 33 & 31 == 1.
    step(&mut ev, "slli a7, a0, 33").unwrap();
    assert_eq!(ev.registers.read(30), 32);
}

#[test]
fn lb_and_lbu_differ_only_in_sign_extension() {
    // A stored 0xff reads back as -1 via lb and as 255 via lbu.
    let mut ev = Evaluator::new();
    step(&mut ev, "li a0, 3000").unwrap();
    step(&mut ev, "li a1, 255").unwrap();
    step(&mut ev, "sb a1, 0(a0)").unwrap();
    step(&mut ev, "lb a2, 0(a0)").unwrap();
    step(&mut ev, "lbu a3, 0(a0)").unwrap();
    assert_eq!(ev.registers.read(25), -1);
    assert_eq!(ev.registers.read(26), 255);
}

#[test]
fn load_store_widths_and_extension() {
    let mut ev = Evaluator::new();
    step(&mut ev, "li a0, 3000").unwrap();
    step(&mut ev, "li a1, -1").unwrap();
    step(&mut ev, "sd a1, 0(a0)").unwrap();
    step(&mut ev, "ld a2, 0(a0)").unwrap();
    assert_eq!(ev.registers.read(25), -1);
    step(&mut ev, "lw a3, 0(a0)").unwrap();
    assert_eq!(ev.registers.read(26), -1);
    step(&mut ev, "lwu a4, 0(a0)").unwrap();
    assert_eq!(ev.registers.read(27), 0xffffffff);
    step(&mut ev, "lhu a5, 0(a0)").unwrap();
    assert_eq!(ev.registers.read(28), 0xffff);
    // sh/sw only write their width.
    step(&mut ev, "li a6, 0").unwrap();
    step(&mut ev, "sw a6, 0(a0)").unwrap();
    step(&mut ev, "ld a2, 0(a0)").unwrap();
    assert_eq!(ev.registers.read(25) as u64, 0xffffffff00000000);
}

#[test]
fn mv_and_sext_copy() {
    let mut ev = Evaluator::new();
    step(&mut ev, "li t0, -42").unwrap();
    step(&mut ev, "mv t1, t0").unwrap();
    step(&mut ev, "sext.w t2, t1").unwrap();
    assert_eq!(ev.registers.read(5), -42);
    assert_eq!(ev.registers.read(6), -42);
}

#[test]
fn branches_and_unsigned_compare() {
    let mut ev = Evaluator::new();
    step(&mut ev, "li a0, -1").unwrap();
    step(&mut ev, "li a1, 1").unwrap();
    ev.registers.write(REG_EIP, 10);
    // Signed: -1 < 1, so blt is taken; eip lands exactly on the target.
    step(&mut ev, "blt a0, a1, 5").unwrap();
    assert_eq!(ev.registers.read(REG_EIP), 5);
    // Unsigned: -1 is the largest value, so bltu is not taken.
    step(&mut ev, "bltu a0, a1, 2").unwrap();
    assert_eq!(ev.registers.read(REG_EIP), 6);
    step(&mut ev, "bgtu a0, a1, 20").unwrap();
    assert_eq!(ev.registers.read(REG_EIP), 20);
    step(&mut ev, "bnez a1, 30").unwrap();
    assert_eq!(ev.registers.read(REG_EIP), 30);
    step(&mut ev, "bgez a0, 40").unwrap();
    assert_eq!(ev.registers.read(REG_EIP), 31);
    step(&mut ev, "bgtz a1, 50").unwrap();
    assert_eq!(ev.registers.read(REG_EIP), 50);
    // Signed greater-than: 1 > -1 takes it, -1 > 1 does not.
    step(&mut ev, "bgt a1, a0, 60").unwrap();
    assert_eq!(ev.registers.read(REG_EIP), 60);
    step(&mut ev, "bgt a0, a1, 70").unwrap();
    assert_eq!(ev.registers.read(REG_EIP), 61);
}

#[test]
fn eip_increments_after_every_instruction() {
    let mut ev = Evaluator::new();
    ev.registers.write(REG_EIP, 7);
    step(&mut ev, "nop").unwrap();
    assert_eq!(ev.registers.read(REG_EIP), 8);
    step(&mut ev, "li a0, 1").unwrap();
    assert_eq!(ev.registers.read(REG_EIP), 9);
}

#[test]
fn jal_and_ret_return_to_instruction_after_call() {
    let mut ev = Evaluator::new();
    ev.registers.write(REG_EIP, 4);
    step(&mut ev, "jal ra, 9").unwrap();
    assert_eq!(ev.registers.read(REG_RA), 5);
    assert_eq!(ev.registers.read(REG_EIP), 9);
    step(&mut ev, "ret").unwrap();
    assert_eq!(ev.registers.read(REG_EIP), 5);
}

#[test]
fn jump_through_register_and_index() {
    let mut ev = Evaluator::new();
    step(&mut ev, "li t0, 12").unwrap();
    step(&mut ev, "j t0").unwrap();
    assert_eq!(ev.registers.read(REG_EIP), 12);
    step(&mut ev, "j 3").unwrap();
    assert_eq!(ev.registers.read(REG_EIP), 3);
    step(&mut ev, "jr t0").unwrap();
    assert_eq!(ev.registers.read(REG_EIP), 12);
}

#[test]
fn unknown_instruction_is_reported() {
    let mut ev = Evaluator::new();
    assert_eq!(
        step(&mut ev, "frobnicate a0, a1"),
        Err(VmError::UnknownInstruction(b"frobnicate".to_vec()))
    );
}

#[test]
fn unknown_register_is_reported() {
    let mut ev = Evaluator::new();
    assert_eq!(
        step(&mut ev, "mv q9, a0"),
        Err(VmError::UnknownRegister(b"q9".to_vec()))
    );
}

#[test]
fn malformed_operand_is_reported() {
    let mut ev = Evaluator::new();
    assert_eq!(
        step(&mut ev, "addi a0, a0, xyz"),
        Err(VmError::MalformedOperand(b"xyz".to_vec()))
    );
    assert_eq!(
        step(&mut ev, "ld a0, nonsense"),
        Err(VmError::MalformedOperand(b"nonsense".to_vec()))
    );
}

#[test]
fn unresolved_label_fails_only_when_needed() {
    let mut ev = Evaluator::new();
    // An untaken branch never looks at its target.
    step(&mut ev, "li a0, 1").unwrap();
    step(&mut ev, "beq a0, zero, nowhere").unwrap();
    // A taken one does.
    assert_eq!(
        step(&mut ev, "bne a0, zero, nowhere"),
        Err(VmError::UnresolvedLabel(b"nowhere".to_vec()))
    );
    assert_eq!(
        step(&mut ev, "j nowhere"),
        Err(VmError::UnresolvedLabel(b"nowhere".to_vec()))
    );
}

#[test]
fn negative_resolved_address_is_reported() {
    let mut ev = Evaluator::new();
    assert_eq!(
        step(&mut ev, "lb a0, -5(zero)"),
        Err(VmError::NegativeAddress(-5))
    );
}

#[test]
fn division_by_zero_is_reported() {
    let mut ev = Evaluator::new();
    step(&mut ev, "li a0, 9").unwrap();
    step(&mut ev, "li a1, 0").unwrap();
    assert_eq!(
        step(&mut ev, "divw a2, a0, a1"),
        Err(VmError::DivisionByZero)
    );
    assert_eq!(
        step(&mut ev, "remw a2, a0, a1"),
        Err(VmError::DivisionByZero)
    );
}

#[test]
fn overflowing_division_is_reported() {
    let mut ev = Evaluator::new();
    step(&mut ev, "li a0, -9223372036854775808").unwrap();
    step(&mut ev, "li a1, -1").unwrap();
    assert_eq!(
        step(&mut ev, "divw a2, a0, a1"),
        Err(VmError::ArithmeticOverflow)
    );
}

#[test]
fn wrapping_addition() {
    let mut ev = Evaluator::new();
    step(&mut ev, "li a0, 9223372036854775807").unwrap();
    step(&mut ev, "addi a1, a0, 1").unwrap();
    assert_eq!(ev.registers.read(REG_A1), i64::MIN);
}

#[test]
fn failed_instruction_leaves_state_unchanged() {
    let mut ev = Evaluator::new();
    step(&mut ev, "li a0, 5").unwrap();
    let eip_before = ev.registers.read(REG_EIP);
    assert!(step(&mut ev, "divw a0, a0, zero").is_err());
    assert_eq!(ev.registers.read(REG_A0), 5);
    assert_eq!(ev.registers.read(REG_EIP), eip_before);
}

#[test]
fn write_syscall_hands_out_memory_bytes() {
    let mut ev = Evaluator::new();
    step(&mut ev, "li a0, 104").unwrap();
    step(&mut ev, "li a1, 3000").unwrap();
    step(&mut ev, "sb a0, 0(a1)").unwrap();
    step(&mut ev, "li a0, 105").unwrap();
    step(&mut ev, "sb a0, 1(a1)").unwrap();
    step(&mut ev, "li a7, 4").unwrap();
    step(&mut ev, "li a2, 2").unwrap();
    let eff = step(&mut ev, "ecall").unwrap();
    assert_eq!(eff, Effect::Output(b"hi".to_vec()));
}

#[test]
fn read_syscall_requests_then_copies_input() {
    let mut ev = Evaluator::new();
    step(&mut ev, "li a7, 3").unwrap();
    step(&mut ev, "li a0, 0").unwrap();
    step(&mut ev, "li a1, 3000").unwrap();
    step(&mut ev, "li a2, 4").unwrap();
    let eff = step(&mut ev, "ecall").unwrap();
    assert_eq!(eff, Effect::Input { address: 3000, count: 4 });
    // The host hands back a longer line; only four bytes are copied.
    ev.finish_read(3000, 4, b"abcdefgh").unwrap();
    assert_eq!(ev.registers.read(REG_A0), 4);
    assert_eq!(ev.memory.read_byte(3000).unwrap(), b'a');
    assert_eq!(ev.memory.read_byte(3003).unwrap(), b'd');
    // A short line copies what there is.
    ev.finish_read(3000, 4, b"xy").unwrap();
    assert_eq!(ev.registers.read(REG_A0), 2);
    assert_eq!(ev.memory.read_byte(3000).unwrap(), b'x');
}

#[test]
fn brk_syscall_moves_the_break() {
    let mut ev = Evaluator::new();
    step(&mut ev, "li a7, 45").unwrap();
    step(&mut ev, "li a0, 128").unwrap();
    let eff = step(&mut ev, "ecall").unwrap();
    assert_eq!(eff, Effect::Quiet);
    assert_eq!(ev.memory.program_break, 128);
    // An over-large break is accepted too; the low heap stays usable.
    step(&mut ev, "li a0, 1000000").unwrap();
    step(&mut ev, "ecall").unwrap();
    assert_eq!(ev.memory.program_break, 1000000);
    assert!(ev.memory.read_byte(100).is_ok());
    // Shrinking back discards the excess.
    step(&mut ev, "li a0, 128").unwrap();
    step(&mut ev, "ecall").unwrap();
    assert_eq!(ev.memory.program_break, 128);
    assert_eq!(ev.memory.read_byte(200), Err(VmError::OutOfBounds(200)));
    // Heap memory is now usable.
    step(&mut ev, "li a1, 16").unwrap();
    step(&mut ev, "li a2, 77").unwrap();
    step(&mut ev, "sb a2, 0(a1)").unwrap();
    step(&mut ev, "lbu a3, 0(a1)").unwrap();
    assert_eq!(ev.registers.read(26), 77);
}

#[test]
fn unsupported_syscall_is_reported() {
    let mut ev = Evaluator::new();
    step(&mut ev, "li a7, 99").unwrap();
    assert_eq!(step(&mut ev, "ecall"), Err(VmError::UnsupportedSyscall(99)));
}

#[test]
fn negative_brk_is_reported() {
    let mut ev = Evaluator::new();
    step(&mut ev, "li a7, 45").unwrap();
    step(&mut ev, "li a0, -1").unwrap();
    assert_eq!(step(&mut ev, "ecall"), Err(VmError::OutOfBounds(-1)));
    assert_eq!(ev.memory.program_break, 0);
}

#[test]
fn named_register_access() {
    let mut r = Registers::new();
    r.set(b"t3", 99).unwrap();
    assert_eq!(r.get(b"t3"), Ok(99));
    assert_eq!(r.get(b"q9"), Err(VmError::UnknownRegister(b"q9".to_vec())));
    assert_eq!(r.set(b"q9", 1), Err(VmError::UnknownRegister(b"q9".to_vec())));
}
