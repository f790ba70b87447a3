use riscv_vm::compile::{compile, compile_files, decode_program};
use riscv_vm::error::VmError;
use riscv_vm::memory::Memory;
use riscv_vm::registers::{REG_A0, REG_A1, REG_EIP};
use riscv_vm::evaluator::Evaluator;

fn assemble(units: &[&str]) -> (Vec<Vec<u8>>, i64, usize, Vec<Vec<u8>>, Memory) {
    let mut memory = Memory::new();
    let files: Vec<Vec<u8>> = units.iter().map(|u| u.as_bytes().to_vec()).collect();
    let (program, entry, dss, warns) = compile_files(&files, &mut memory).unwrap();
    (program, entry, dss, warns, memory)
}

#[test]
fn backward_jump_resolves_and_loops() {
    // `j loop` resolves to the numeric index of the `addi` (0); three trips
    // around the loop leave a0 incremented by 3 with eip back at 0.
    let (program, entry, dss, warns, memory) =
        assemble(&["loop:\naddi a0, a0, 1\nj loop"]);
    assert_eq!(program, vec![b"addi a0, a0, 1".to_vec(), b"j 0".to_vec()]);
    assert_eq!(entry, 0);
    assert_eq!(dss, 0);
    assert!(warns.is_empty());

    let decoded = decode_program(&program);
    let mut ev = Evaluator::new();
    ev.memory = memory;
    ev.registers.write(REG_A0, 0);
    ev.registers.write(REG_EIP, entry);
    for _ in 0..6 {
        let eip = ev.registers.read(REG_EIP) as usize;
        ev.evaluate(&decoded[eip]).unwrap();
    }
    assert_eq!(ev.registers.read(REG_A0), 3);
    assert_eq!(ev.registers.read(REG_EIP), 0);
}

#[test]
fn string_directive_binds_label_and_loads() {
    // `.string "hi"` puts the bytes at the top of the address space; `la`
    // takes the bound address and `lb` reads back the 'h' (104).
    let (program, entry, dss, warns, memory) = assemble(&[
        "mystr:\n.string \"hi\"\nmain:\nla a0, mystr\nlb a1, 0(a0)",
    ]);
    assert_eq!(dss, 3);
    assert_eq!(entry, 0);
    assert!(warns.is_empty());
    assert_eq!(program[0], b"la a0,4093".to_vec());
    assert_eq!(memory.read_byte(4093).unwrap(), b'h');
    assert_eq!(memory.read_byte(4094).unwrap(), b'i');
    assert_eq!(memory.read_byte(4095).unwrap(), 0);

    let decoded = decode_program(&program);
    let mut ev = Evaluator::new();
    ev.memory = memory;
    ev.registers.write(REG_EIP, entry);
    for _ in 0..2 {
        let eip = ev.registers.read(REG_EIP) as usize;
        ev.evaluate(&decoded[eip]).unwrap();
    }
    assert_eq!(ev.registers.read(REG_A1), 104);
}

#[test]
fn string_directive_unescapes() {
    // The data segment holds the unescaped bytes: "a\n" is two bytes plus
    // the NUL, not the four raw source characters.
    let (_, _, dss, _, memory) = assemble(&["s:\n.string \"a\\n\""]);
    assert_eq!(dss, 3);
    assert_eq!(memory.read_byte(4093).unwrap(), b'a');
    assert_eq!(memory.read_byte(4094).unwrap(), b'\n');
    assert_eq!(memory.read_byte(4095).unwrap(), 0);
}

#[test]
fn zero_directive_reserves_without_writing() {
    let (_, _, dss, _, memory) = assemble(&["buf:\n.zero 8\ns:\n.string \"x\""]);
    // 8 reserved bytes, then "x" + NUL below them.
    assert_eq!(dss, 10);
    assert_eq!(memory.read_byte(4086).unwrap(), b'x');
    assert_eq!(memory.read_byte(4088).unwrap(), 0);
}

#[test]
fn cross_unit_labels_resolve_in_either_order() {
    // Unit a defines `helper`; unit b's `call` resolves because the symbol
    // table is shared and cumulative, whichever unit comes first.
    let a = "helper:\nli a0, 7\nret";
    let b = "main:\ncall helper\nnop";

    let (prog_ab, entry_ab, _, warns_ab, _) = assemble(&[a, b]);
    assert_eq!(
        prog_ab,
        vec![
            b"li a0, 7".to_vec(),
            b"ret".to_vec(),
            b"jal ra,0".to_vec(),
            b"nop".to_vec(),
        ]
    );
    assert_eq!(entry_ab, 2);
    assert!(warns_ab.is_empty());

    let (prog_ba, entry_ba, _, warns_ba, mem_ba) = assemble(&[b, a]);
    assert_eq!(
        prog_ba,
        vec![
            b"jal ra,2".to_vec(),
            b"nop".to_vec(),
            b"li a0, 7".to_vec(),
            b"ret".to_vec(),
        ]
    );
    assert_eq!(entry_ba, 0);
    assert!(warns_ba.is_empty());

    // Executing the second build from its entry reaches the helper.
    let decoded = decode_program(&prog_ba);
    let mut ev = Evaluator::new();
    ev.memory = mem_ba;
    ev.registers.write(REG_EIP, entry_ba);
    for _ in 0..2 {
        let eip = ev.registers.read(REG_EIP) as usize;
        ev.evaluate(&decoded[eip]).unwrap();
    }
    assert_eq!(ev.registers.read(REG_A0), 7);
}

#[test]
fn comments_tabs_and_blanks_take_no_slot() {
    let src = "# a comment line\n\n\tmain:\n  addi a0, a0, 1 # trailing comment\n   \nnop";
    let (program, entry, _, _, _) = assemble(&[src]);
    assert_eq!(program, vec![b"addi a0, a0, 1".to_vec(), b"nop".to_vec()]);
    assert_eq!(entry, 0);
}

#[test]
fn unresolved_target_is_reported_not_fatal() {
    let (program, _, _, warns, _) = assemble(&["main:\ncall missing\nnop"]);
    // The line is left untouched; only the diagnostic records the label.
    assert_eq!(program[0], b"call missing".to_vec());
    assert_eq!(warns, vec![b"missing".to_vec()]);
}

#[test]
fn register_jump_gets_no_warning() {
    let (program, _, _, warns, _) = assemble(&["main:\njr ra\nj t0"]);
    assert_eq!(program, vec![b"jr ra".to_vec(), b"j t0".to_vec()]);
    assert!(warns.is_empty());
}

#[test]
fn plt_suffix_is_stripped() {
    let (program, _, _, warns, _) = assemble(&["helper:\nnop\nmain:\ncall helper@plt"]);
    assert_eq!(program[1], b"jal ra,0".to_vec());
    assert!(warns.is_empty());
}

#[test]
fn malformed_string_directive_is_fatal() {
    let mut memory = Memory::new();
    let files = vec![b".string".to_vec()];
    assert_eq!(
        compile_files(&files, &mut memory),
        Err(VmError::MalformedOperand(b".string".to_vec()))
    );
}

#[test]
fn malformed_zero_directive_is_fatal() {
    let mut memory = Memory::new();
    let files = vec![b"buf:\n.zero eight".to_vec()];
    assert_eq!(
        compile_files(&files, &mut memory),
        Err(VmError::MalformedOperand(b".zero eight".to_vec()))
    );
}

#[test]
fn oversized_data_segment_is_fatal() {
    let mut memory = Memory::new();
    let files = vec![b"buf:\n.zero 5000".to_vec()];
    assert_eq!(
        compile_files(&files, &mut memory),
        Err(VmError::OutOfBounds(4096))
    );
}

#[test]
fn data_label_address_formula() {
    // Each literal's start is total size minus the cumulative segment size.
    let (_, _, dss, _, memory) = assemble(&["a:\n.string \"one\"\nb:\n.string \"two\""]);
    assert_eq!(dss, 8);
    // "one\0" at 4092..4096, "two\0" at 4088..4092.
    assert_eq!(memory.read_byte(4092).unwrap(), b'o');
    assert_eq!(memory.read_byte(4088).unwrap(), b't');
}

#[test]
fn compile_accumulates_shared_state() {
    let mut memory = Memory::new();
    let mut program: Vec<Vec<u8>> = Vec::new();
    let mut dss: usize = 0;
    let mut symbols: Vec<(Vec<u8>, usize)> = Vec::new();

    // The first unit leaves a reference open and reports it.
    let (entry1, warns1) = compile(
        b"main:\ncall helper",
        &mut memory,
        &mut program,
        &mut dss,
        &mut symbols,
    )
    .unwrap();
    assert_eq!(entry1, 0);
    assert_eq!(warns1, vec![b"helper".to_vec()]);

    // The second unit defines it; its pass two reruns over the whole
    // program and closes the reference.
    let (entry2, warns2) = compile(
        b"helper:\nret",
        &mut memory,
        &mut program,
        &mut dss,
        &mut symbols,
    )
    .unwrap();
    assert_eq!(entry2, 0);
    assert!(warns2.is_empty());
    assert_eq!(program, vec![b"jal ra,1".to_vec(), b"ret".to_vec()]);
}
