//! The fetch-decode-execute core: executes one decoded instruction against
//! the register bank and the memory. Syscalls surface as effects: the host
//! performs the I/O and, for a read, hands the bytes back through
//! `finish_read`. After every successful instruction the program counter is
//! incremented by exactly one; control-flow instructions therefore store
//! their target minus one.

use crate::error::{ErrView, VmError};
use crate::instruction::{
    res_models, AluOp, BranchCond, BranchTargetView, Instruction, InsView, JumpTargetView,
    ZeroCond,
};
use crate::memory::{le_bytes_of, le_value, lemma_le_value_bound, lemma_pow256_values, Memory,
    MemView};
use crate::registers::{
    initial_regs, Registers, NUM_REGS, REG_A0, REG_A1, REG_A2, REG_A7, REG_EIP, REG_RA,
};
use vstd::prelude::*;

verus! {

// ---------------------------------------------------------------------------
// The machine state as mathematics
// ---------------------------------------------------------------------------

/// The whole machine: the register file and the memory model.
#[verifier::ext_equal]
pub ghost struct VmView {
    pub regs: Seq<i64>,
    pub mem: MemView,
}

impl VmView {
    pub open spec fn wf(self) -> bool {
        self.regs.len() == NUM_REGS && self.mem.wf()
    }

    pub open spec fn with_reg(self, r: usize, v: i64) -> VmView {
        VmView { regs: self.regs.update(r as int, v), mem: self.mem }
    }

    pub open spec fn with_mem(self, m: MemView) -> VmView {
        VmView { regs: self.regs, mem: m }
    }

    /// The program counter.
    pub open spec fn eip(self) -> i64 {
        self.regs[REG_EIP as int]
    }
}

/// What an instruction asks of the host besides changing machine state.
pub ghost enum EffectView {
    Quiet,
    Output(Seq<u8>),
    Input { address: i64, count: i64 },
}

/// The executable counterpart of `EffectView`: nothing, bytes for the
/// host's output, or a request to read one line of input and hand it to
/// `Evaluator::finish_read`.
#[derive(Debug, Clone, PartialEq)]
pub enum Effect {
    Quiet,
    Output(Vec<u8>),
    Input { address: i64, count: i64 },
}

impl View for Effect {
    type V = EffectView;

    open spec fn view(&self) -> EffectView {
        match self {
            Effect::Quiet => EffectView::Quiet,
            Effect::Output(v) => EffectView::Output(v@),
            Effect::Input { address, count } => EffectView::Input {
                address: *address,
                count: *count,
            },
        }
    }
}

// ---------------------------------------------------------------------------
// Instruction semantics
// ---------------------------------------------------------------------------

/// What a binary ALU operation computes. Additions, subtractions and
/// multiplications wrap as the hardware's do; divisions report a zero
/// divisor or an overflowing quotient; shifts mask their amount to five
/// bits.
pub open spec fn alu_eval(op: AluOp, a: i64, b: i64) -> Result<i64, ErrView> {
    match op {
        AluOp::Add => Ok(a.wrapping_add(b)),
        AluOp::Sub => Ok(a.wrapping_sub(b)),
        AluOp::Mul => Ok(a.wrapping_mul(b)),
        AluOp::Div => match a.checked_div(b) {
            Some(q) => Ok(q),
            None => Err(
                if b == 0 {
                    ErrView::DivisionByZero
                } else {
                    ErrView::ArithmeticOverflow
                },
            ),
        },
        AluOp::Rem => match a.checked_rem(b) {
            Some(q) => Ok(q),
            None => Err(
                if b == 0 {
                    ErrView::DivisionByZero
                } else {
                    ErrView::ArithmeticOverflow
                },
            ),
        },
        AluOp::Or => Ok(a | b),
        AluOp::And => Ok(a & b),
        AluOp::Sll => Ok((((a as u64) << ((b & 0x1f) as u32)) as i64)),
        AluOp::Srl => Ok((((a as u64) >> ((b & 0x1f) as u32)) as i64)),
        AluOp::Sra => Ok((a >> ((b & 0x1f) as u32))),
    }
}

/// The resolved address of a memory operand: offset plus register, checked
/// mathematically. A negative result is a `NegativeAddress`; one beyond
/// `i64` can back no memory and is `OutOfBounds`.
pub open spec fn resolve_addr(off: i64, base: i64) -> Result<i64, ErrView> {
    if off + base < i64::MIN {
        Err(ErrView::NegativeAddress(i64::MIN))
    } else if off + base < 0 {
        Err(ErrView::NegativeAddress((off + base) as i64))
    } else if off + base > i64::MAX {
        Err(ErrView::OutOfBounds(i64::MAX))
    } else {
        Ok((off + base) as i64)
    }
}

/// A loaded value extended to 64 bits: sign-extended or zero-extended
/// according to the load's width and signedness.
pub open spec fn extend_loaded(raw: u64, width: usize, signed: bool) -> i64 {
    if signed {
        if width == 1 {
            raw as u8 as i8 as i64
        } else if width == 2 {
            raw as u16 as i16 as i64
        } else if width == 4 {
            raw as u32 as i32 as i64
        } else {
            raw as i64
        }
    } else {
        raw as i64
    }
}

pub open spec fn branch_taken(cond: BranchCond, a: i64, b: i64) -> bool {
    match cond {
        BranchCond::Eq => a == b,
        BranchCond::Ne => a != b,
        BranchCond::Le => a <= b,
        BranchCond::Lt => a < b,
        BranchCond::Ge => a >= b,
        BranchCond::Gt => a > b,
        BranchCond::Gtu => (a as u64) > (b as u64),
        BranchCond::Ltu => (a as u64) < (b as u64),
    }
}

pub open spec fn zero_taken(cond: ZeroCond, a: i64) -> bool {
    match cond {
        ZeroCond::Nez => a != 0,
        ZeroCond::Gtz => a > 0,
        ZeroCond::Gez => a >= 0,
    }
}

/// Is every byte of the `cnt`-byte buffer at `buf` backed by memory?
pub open spec fn range_all_valid(v: VmView, buf: i64, cnt: int) -> bool {
    forall|i: int| 0 <= i < cnt ==> #[trigger] v.mem.valid(buf + i)
}

/// The `ecall` semantics, dispatched on `a7`: 3 reads a line into memory at
/// `a1` (the copy happens in `finish_read`), 4 writes `a2` bytes at `a1` to
/// the host's output, 45 moves the program break to `a0`.
pub open spec fn spec_ecall(v: VmView) -> Result<(VmView, EffectView), ErrView> {
    let nr = v.regs[REG_A7 as int];
    if nr == 3 {
        Ok((v, EffectView::Input { address: v.regs[REG_A1 as int], count: v.regs[REG_A2 as int] }))
    } else if nr == 4 {
        let buf = v.regs[REG_A1 as int];
        let cnt = v.regs[REG_A2 as int];
        if cnt <= 0 {
            Ok((v, EffectView::Output(Seq::<u8>::empty())))
        } else if range_all_valid(v, buf, cnt as int) {
            Ok((v, EffectView::Output(Seq::new(cnt as nat, |i: int| v.mem.byte_at(buf + i)))))
        } else {
            Err(ErrView::OutOfBounds(buf))
        }
    } else if nr == 45 {
        let nb = v.regs[REG_A0 as int];
        if nb >= 0 && nb as u64 <= usize::MAX as u64 {
            Ok((v.with_mem(v.mem.with_break(nb as int)), EffectView::Quiet))
        } else {
            Err(ErrView::OutOfBounds(nb))
        }
    } else {
        Err(ErrView::UnsupportedSyscall(nr))
    }
}

/// One instruction's effect on the state, before the program counter bump.
pub open spec fn spec_step_pre(v: VmView, ins: InsView) -> Result<(VmView, EffectView), ErrView> {
    match ins {
        InsView::Mv { rd, rs } => Ok((v.with_reg(rd, v.regs[rs as int]), EffectView::Quiet)),
        InsView::Li { rd, imm } => Ok((v.with_reg(rd, imm), EffectView::Quiet)),
        InsView::Load { rd, width, signed, mem } => match resolve_addr(
            mem.offset,
            v.regs[mem.reg as int],
        ) {
            Err(e) => Err(e),
            Ok(a) => match v.mem.range_err(a, width as nat) {
                Some(e) => Err(e@),
                None => Ok(
                    (
                        v.with_reg(
                            rd,
                            extend_loaded(
                                le_value(v.mem.bytes_at(a as int, width as nat)) as u64,
                                width,
                                signed,
                            ),
                        ),
                        EffectView::Quiet,
                    ),
                ),
            },
        },
        InsView::Store { rs, width, mem } => match resolve_addr(
            mem.offset,
            v.regs[mem.reg as int],
        ) {
            Err(e) => Err(e),
            Ok(a) => match v.mem.range_err(a, width as nat) {
                Some(e) => Err(e@),
                None => Ok(
                    (
                        v.with_mem(
                            v.mem.write_bytes(
                                a as int,
                                le_bytes_of(v.regs[rs as int] as u64 as nat, width as nat),
                            ),
                        ),
                        EffectView::Quiet,
                    ),
                ),
            },
        },
        InsView::Inc { rd } => Ok(
            (v.with_reg(rd, v.regs[rd as int].wrapping_add(1)), EffectView::Quiet),
        ),
        InsView::Dec { rd } => Ok(
            (v.with_reg(rd, v.regs[rd as int].wrapping_sub(1)), EffectView::Quiet),
        ),
        InsView::Alu { op, rd, rs1, rs2 } => match alu_eval(
            op,
            v.regs[rs1 as int],
            v.regs[rs2 as int],
        ) {
            Ok(x) => Ok((v.with_reg(rd, x), EffectView::Quiet)),
            Err(e) => Err(e),
        },
        InsView::AluImm { op, rd, rs1, imm } => match alu_eval(op, v.regs[rs1 as int], imm) {
            Ok(x) => Ok((v.with_reg(rd, x), EffectView::Quiet)),
            Err(e) => Err(e),
        },
        InsView::Neg { rd, rs } => Ok(
            (v.with_reg(rd, (0i64).wrapping_sub(v.regs[rs as int])), EffectView::Quiet),
        ),
        InsView::SextW { rd, rs } => Ok((v.with_reg(rd, v.regs[rs as int]), EffectView::Quiet)),
        InsView::Nop => Ok((v, EffectView::Quiet)),
        InsView::Jump { target } => match target {
            JumpTargetView::Reg(r) => Ok(
                (v.with_reg(REG_EIP, v.regs[r as int].wrapping_sub(1)), EffectView::Quiet),
            ),
            JumpTargetView::Abs(t) => Ok(
                (v.with_reg(REG_EIP, t.wrapping_sub(1)), EffectView::Quiet),
            ),
            JumpTargetView::Unresolved(s) => Err(ErrView::UnresolvedLabel(s)),
        },
        InsView::JumpReg { rs } => Ok(
            (v.with_reg(REG_EIP, v.regs[rs as int].wrapping_sub(1)), EffectView::Quiet),
        ),
        InsView::JumpLink { rd, target } => match target {
            BranchTargetView::Abs(t) => Ok(
                (
                    v.with_reg(rd, v.eip().wrapping_add(1)).with_reg(
                        REG_EIP,
                        t.wrapping_sub(1),
                    ),
                    EffectView::Quiet,
                ),
            ),
            BranchTargetView::Unresolved(s) => Err(ErrView::UnresolvedLabel(s)),
        },
        InsView::Branch { cond, rs1, rs2, target } => {
            if !branch_taken(cond, v.regs[rs1 as int], v.regs[rs2 as int]) {
                Ok((v, EffectView::Quiet))
            } else {
                match target {
                    BranchTargetView::Abs(t) => Ok(
                        (v.with_reg(REG_EIP, t.wrapping_sub(1)), EffectView::Quiet),
                    ),
                    BranchTargetView::Unresolved(s) => Err(ErrView::UnresolvedLabel(s)),
                }
            }
        },
        InsView::BranchZero { cond, rs, target } => {
            if !zero_taken(cond, v.regs[rs as int]) {
                Ok((v, EffectView::Quiet))
            } else {
                match target {
                    BranchTargetView::Abs(t) => Ok(
                        (v.with_reg(REG_EIP, t.wrapping_sub(1)), EffectView::Quiet),
                    ),
                    BranchTargetView::Unresolved(s) => Err(ErrView::UnresolvedLabel(s)),
                }
            }
        },
        InsView::Ret => Ok(
            (v.with_reg(REG_EIP, v.regs[REG_RA as int].wrapping_sub(1)), EffectView::Quiet),
        ),
        InsView::Ecall => spec_ecall(v),
        InsView::Invalid { cause } => Err(cause),
    }
}

/// One full instruction step: the instruction's own effect, then the
/// unconditional program-counter increment.
pub open spec fn spec_step(v: VmView, ins: InsView) -> Result<(VmView, EffectView), ErrView> {
    match spec_step_pre(v, ins) {
        Ok((v2, eff)) => Ok(
            (v2.with_reg(REG_EIP, v2.regs[REG_EIP as int].wrapping_add(1)), eff),
        ),
        Err(e) => Err(e),
    }
}

/// Completing a read syscall: up to `count` bytes of the host's input line
/// are copied to memory at `address` (all of them when `count` is negative
/// or exceeds the line), and `a0` receives the number of bytes copied.
pub open spec fn spec_finish_read(v: VmView, address: i64, count: i64, input: Seq<u8>) -> Result<
    VmView,
    ErrView,
> {
    let copied = if count < 0 || count >= input.len() {
        input.len() as int
    } else {
        count as int
    };
    if range_all_valid(v, address, copied) {
        Ok(
            VmView {
                regs: v.regs.update(REG_A0 as int, copied as i64),
                mem: v.mem.write_bytes(address as int, input.take(copied)),
            },
        )
    } else {
        Err(ErrView::OutOfBounds(address))
    }
}

// ---------------------------------------------------------------------------
// Executable semantics helpers
// ---------------------------------------------------------------------------

fn alu_exec(op: AluOp, a: i64, b: i64) -> (r: Result<i64, VmError>)
    ensures
        res_models(r, alu_eval(op, a, b)),
{
    match op {
        AluOp::Add => Ok(a.wrapping_add(b)),
        AluOp::Sub => Ok(a.wrapping_sub(b)),
        AluOp::Mul => Ok(a.wrapping_mul(b)),
        AluOp::Div => match a.checked_div(b) {
            Some(q) => Ok(q),
            None => Err(
                if b == 0 {
                    VmError::DivisionByZero
                } else {
                    VmError::ArithmeticOverflow
                },
            ),
        },
        AluOp::Rem => match a.checked_rem(b) {
            Some(q) => Ok(q),
            None => Err(
                if b == 0 {
                    VmError::DivisionByZero
                } else {
                    VmError::ArithmeticOverflow
                },
            ),
        },
        AluOp::Or => Ok(a | b),
        AluOp::And => Ok(a & b),
        AluOp::Sll => {
            let sh = (b & 0x1f) as u32;
            proof {
                assert(0 <= (b & 0x1f) < 32) by (bit_vector);
            }
            Ok(((a as u64) << sh) as i64)
        },
        AluOp::Srl => {
            let sh = (b & 0x1f) as u32;
            proof {
                assert(0 <= (b & 0x1f) < 32) by (bit_vector);
            }
            Ok(((a as u64) >> sh) as i64)
        },
        AluOp::Sra => {
            let sh = (b & 0x1f) as u32;
            proof {
                assert(0 <= (b & 0x1f) < 32) by (bit_vector);
            }
            Ok(a >> sh)
        },
    }
}

fn resolve_addr_exec(off: i64, base: i64) -> (r: Result<i64, VmError>)
    ensures
        res_models(r, resolve_addr(off, base)),
{
    match off.checked_add(base) {
        Some(s) => {
            if s < 0 {
                Err(VmError::NegativeAddress(s))
            } else {
                Ok(s)
            }
        },
        None => {
            if base < 0 {
                Err(VmError::NegativeAddress(i64::MIN))
            } else {
                Err(VmError::OutOfBounds(i64::MAX))
            }
        },
    }
}

fn extend_exec(raw: u64, width: usize, signed: bool) -> (r: i64)
    ensures
        r == extend_loaded(raw, width, signed),
{
    if signed {
        if width == 1 {
            raw as u8 as i8 as i64
        } else if width == 2 {
            raw as u16 as i16 as i64
        } else if width == 4 {
            raw as u32 as i32 as i64
        } else {
            raw as i64
        }
    } else {
        raw as i64
    }
}

fn branch_taken_exec(cond: BranchCond, a: i64, b: i64) -> (r: bool)
    ensures
        r == branch_taken(cond, a, b),
{
    match cond {
        BranchCond::Eq => a == b,
        BranchCond::Ne => a != b,
        BranchCond::Le => a <= b,
        BranchCond::Lt => a < b,
        BranchCond::Ge => a >= b,
        BranchCond::Gt => a > b,
        BranchCond::Gtu => (a as u64) > (b as u64),
        BranchCond::Ltu => (a as u64) < (b as u64),
    }
}

fn zero_taken_exec(cond: ZeroCond, a: i64) -> (r: bool)
    ensures
        r == zero_taken(cond, a),
{
    match cond {
        ZeroCond::Nez => a != 0,
        ZeroCond::Gtz => a > 0,
        ZeroCond::Gez => a >= 0,
    }
}

// ---------------------------------------------------------------------------
// The evaluator
// ---------------------------------------------------------------------------

/// The virtual machine: the register bank and the memory, driven one
/// instruction at a time.
pub struct Evaluator {
    pub registers: Registers,
    pub memory: Memory,
}

impl View for Evaluator {
    type V = VmView;

    open spec fn view(&self) -> VmView {
        VmView { regs: self.registers@, mem: self.memory@ }
    }
}

impl Evaluator {
    pub open spec fn wf(self) -> bool {
        self.registers.wf() && self.memory.wf()
    }

    /// A fresh machine: default memory, `zero` cleared, every other
    /// register poisoned.
    pub fn new() -> (r: Evaluator)
        ensures
            r.wf(),
            r@.regs == initial_regs(),
            r@.mem.total == 4096,
            r@.mem.stack =~= Seq::new(2048nat, |i: int| 0u8),
            r@.mem.heap =~= Seq::<u8>::empty(),
            r.memory.program_break == 0,
    {
        Evaluator { registers: Registers::new(), memory: Memory::new() }
    }

    /// Executes one decoded instruction. On success the state advances
    /// exactly as `spec_step` says and the returned effect tells the host
    /// what to do; on error the state is unchanged.
    pub fn evaluate(&mut self, instruction: &Instruction) -> (r: Result<Effect, VmError>)
        requires
            old(self).wf(),
            instruction@.wf(),
        ensures
            final(self).wf(),
            match spec_step(old(self)@, instruction@) {
                Ok((v2, eff)) => r matches Ok(e) && e@ == eff && final(self)@ == v2,
                Err(ev) => r matches Err(e) && e@ == ev && final(self)@ == old(self)@,
            },
    {
        let eff: Effect = match instruction {
            Instruction::Mv { rd, rs } => {
                let val = self.registers.read(*rs);
                self.registers.write(*rd, val);
                Effect::Quiet
            },
            Instruction::Li { rd, imm } => {
                self.registers.write(*rd, *imm);
                Effect::Quiet
            },
            Instruction::Load { rd, width, signed, mem } => {
                let base = self.registers.read(mem.reg);
                let a = match resolve_addr_exec(mem.offset, base) {
                    Ok(a) => a,
                    Err(e) => {
                        return Err(e);
                    },
                };
                let raw = match self.memory.load_bytes(a, *width) {
                    Ok(v) => v,
                    Err(e) => {
                        return Err(e);
                    },
                };
                proof {
                    lemma_le_value_bound(self@.mem.bytes_at(a as int, *width as nat));
                    lemma_pow256_values();
                }
                let val = extend_exec(raw, *width, *signed);
                self.registers.write(*rd, val);
                Effect::Quiet
            },
            Instruction::Store { rs, width, mem } => {
                let base = self.registers.read(mem.reg);
                let a = match resolve_addr_exec(mem.offset, base) {
                    Ok(a) => a,
                    Err(e) => {
                        return Err(e);
                    },
                };
                let val = self.registers.read(*rs);
                match self.memory.store_to(a, val, *width) {
                    Ok(()) => {},
                    Err(e) => {
                        return Err(e);
                    },
                }
                Effect::Quiet
            },
            Instruction::Inc { rd } => {
                let v = self.registers.read(*rd);
                self.registers.write(*rd, v.wrapping_add(1));
                Effect::Quiet
            },
            Instruction::Dec { rd } => {
                let v = self.registers.read(*rd);
                self.registers.write(*rd, v.wrapping_sub(1));
                Effect::Quiet
            },
            Instruction::Alu { op, rd, rs1, rs2 } => {
                let a = self.registers.read(*rs1);
                let b = self.registers.read(*rs2);
                match alu_exec(*op, a, b) {
                    Ok(x) => {
                        self.registers.write(*rd, x);
                        Effect::Quiet
                    },
                    Err(e) => {
                        return Err(e);
                    },
                }
            },
            Instruction::AluImm { op, rd, rs1, imm } => {
                let a = self.registers.read(*rs1);
                match alu_exec(*op, a, *imm) {
                    Ok(x) => {
                        self.registers.write(*rd, x);
                        Effect::Quiet
                    },
                    Err(e) => {
                        return Err(e);
                    },
                }
            },
            Instruction::Neg { rd, rs } => {
                let a = self.registers.read(*rs);
                self.registers.write(*rd, (0i64).wrapping_sub(a));
                Effect::Quiet
            },
            Instruction::SextW { rd, rs } => {
                let a = self.registers.read(*rs);
                self.registers.write(*rd, a);
                Effect::Quiet
            },
            Instruction::Nop => Effect::Quiet,
            Instruction::Jump { target } => match target {
                crate::instruction::JumpTarget::Reg(rg) => {
                    let t = self.registers.read(*rg);
                    self.registers.write(REG_EIP, t.wrapping_sub(1));
                    Effect::Quiet
                },
                crate::instruction::JumpTarget::Abs(t) => {
                    self.registers.write(REG_EIP, t.wrapping_sub(1));
                    Effect::Quiet
                },
                crate::instruction::JumpTarget::Unresolved(s) => {
                    return Err(VmError::UnresolvedLabel(s.clone()));
                },
            },
            Instruction::JumpReg { rs } => {
                let t = self.registers.read(*rs);
                self.registers.write(REG_EIP, t.wrapping_sub(1));
                Effect::Quiet
            },
            Instruction::JumpLink { rd, target } => match target {
                crate::instruction::BranchTarget::Abs(t) => {
                    let eip = self.registers.read(REG_EIP);
                    self.registers.write(*rd, eip.wrapping_add(1));
                    self.registers.write(REG_EIP, t.wrapping_sub(1));
                    Effect::Quiet
                },
                crate::instruction::BranchTarget::Unresolved(s) => {
                    return Err(VmError::UnresolvedLabel(s.clone()));
                },
            },
            Instruction::Branch { cond, rs1, rs2, target } => {
                let a = self.registers.read(*rs1);
                let b = self.registers.read(*rs2);
                if branch_taken_exec(*cond, a, b) {
                    match target {
                        crate::instruction::BranchTarget::Abs(t) => {
                            self.registers.write(REG_EIP, t.wrapping_sub(1));
                            Effect::Quiet
                        },
                        crate::instruction::BranchTarget::Unresolved(s) => {
                            return Err(VmError::UnresolvedLabel(s.clone()));
                        },
                    }
                } else {
                    Effect::Quiet
                }
            },
            Instruction::BranchZero { cond, rs, target } => {
                let a = self.registers.read(*rs);
                if zero_taken_exec(*cond, a) {
                    match target {
                        crate::instruction::BranchTarget::Abs(t) => {
                            self.registers.write(REG_EIP, t.wrapping_sub(1));
                            Effect::Quiet
                        },
                        crate::instruction::BranchTarget::Unresolved(s) => {
                            return Err(VmError::UnresolvedLabel(s.clone()));
                        },
                    }
                } else {
                    Effect::Quiet
                }
            },
            Instruction::Ret => {
                let t = self.registers.read(REG_RA);
                self.registers.write(REG_EIP, t.wrapping_sub(1));
                Effect::Quiet
            },
            Instruction::Ecall => {
                let nr = self.registers.read(REG_A7);
                if nr == 3 {
                    let a1 = self.registers.read(REG_A1);
                    let a2 = self.registers.read(REG_A2);
                    Effect::Input { address: a1, count: a2 }
                } else if nr == 4 {
                    let buf = self.registers.read(REG_A1);
                    let cnt = self.registers.read(REG_A2);
                    let mut out: Vec<u8> = Vec::new();
                    if cnt > 0 {
                        let mut i: i64 = 0;
                        while i < cnt
                            invariant
                                self == old(self),
                                self.wf(),
                                instruction@ == InsView::Ecall,
                                old(self)@.regs[REG_A7 as int] == 4,
                                buf == old(self)@.regs[REG_A1 as int],
                                cnt == old(self)@.regs[REG_A2 as int],
                                0 < cnt,
                                0 <= i <= cnt,
                                forall|k: int| 0 <= k < i ==> #[trigger] self@.mem.valid(buf + k),
                                out@ =~= self@.mem.bytes_at(buf as int, i as nat),
                            decreases cnt - i,
                        {
                            proof {
                                if i > 0 {
                                    assert(self@.mem.valid(buf + (i - 1)));
                                    assert(buf + (i - 1) < self@.mem.total);
                                }
                            }
                            let a = buf + i;
                            match self.memory.read_byte(a) {
                                Ok(b) => {
                                    out.push(b);
                                },
                                Err(_) => {
                                    proof {
                                        let v = old(self)@;
                                        let bufs = v.regs[REG_A1 as int];
                                        let cnts = v.regs[REG_A2 as int];
                                        assert(!v.mem.valid(bufs + i));
                                        assert(!range_all_valid(v, bufs, cnts as int)) by {
                                            if range_all_valid(v, bufs, cnts as int) {
                                                assert(v.mem.valid(bufs + (i as int)));
                                            }
                                        }
                                    }
                                    return Err(VmError::OutOfBounds(buf));
                                },
                            }
                            proof {
                                assert(out@ =~= self@.mem.bytes_at(buf as int, (i + 1) as nat));
                            }
                            i += 1;
                        }
                        proof {
                            let v = old(self)@;
                            let bufs = v.regs[REG_A1 as int];
                            let cnts = v.regs[REG_A2 as int];
                            assert(range_all_valid(v, bufs, cnts as int));
                            assert(out@ =~= Seq::new(
                                v.regs[REG_A2 as int] as nat,
                                |k: int| v.mem.byte_at(v.regs[REG_A1 as int] + k),
                            ));
                        }
                    }
                    Effect::Output(out)
                } else if nr == 45 {
                    let nb = self.registers.read(REG_A0);
                    match self.memory.set_break(nb) {
                        Ok(()) => Effect::Quiet,
                        Err(e) => {
                            return Err(e);
                        },
                    }
                } else {
                    return Err(VmError::UnsupportedSyscall(nr));
                }
            },
            Instruction::Invalid { cause } => {
                return Err(cause.duplicate());
            },
        };
        let eip = self.registers.read(REG_EIP);
        self.registers.write(REG_EIP, eip.wrapping_add(1));
        Ok(eff)
    }

    /// Completes a read syscall: copies up to `count` bytes of `input` into
    /// memory at `address` and reports the copied count in `a0`. On error
    /// nothing is changed.
    pub fn finish_read(&mut self, address: i64, count: i64, input: &[u8]) -> (r: Result<
        (),
        VmError,
    >)
        requires
            old(self).wf(),
            input@.len() < 0x8000_0000_0000_0000,
        ensures
            final(self).wf(),
            match spec_finish_read(old(self)@, address, count, input@) {
                Ok(v2) => r is Ok && final(self)@ == v2,
                Err(ev) => r matches Err(e) && e@ == ev && final(self)@ == old(self)@,
            },
    {
        let copied: usize = if count < 0 || count >= input.len() as i64 {
            input.len()
        } else {
            count as usize
        };
        let ghost spec_copied = if count < 0 || count >= input@.len() {
            input@.len() as int
        } else {
            count as int
        };
        proof {
            assert(copied as int == spec_copied);
        }
        let mut i: usize = 0;
        while i < copied
            invariant
                self == old(self),
                self.wf(),
                i <= copied,
                copied <= input@.len(),
                copied as int == spec_copied,
                spec_copied == (if count < 0 || count >= input@.len() {
                    input@.len() as int
                } else {
                    count as int
                }),
                input@.len() < 0x8000_0000_0000_0000,
                forall|k: int| 0 <= k < i ==> #[trigger] self@.mem.valid(address + k),
            decreases copied - i,
        {
            if address < 0 || address > i64::MAX - (i as i64) {
                proof {
                    let v = old(self)@;
                    if address < 0 {
                        if i > 0 {
                            assert(v.mem.valid(address + 0));
                            assert(false);
                        }
                        assert(!v.mem.valid(address + i));
                    } else {
                        assert(address + i > i64::MAX);
                        assert(!v.mem.valid(address + i));
                    }
                    assert(!range_all_valid(v, address, spec_copied)) by {
                        if range_all_valid(v, address, spec_copied) {
                            assert(v.mem.valid(address + (i as int)));
                        }
                    }
                }
                return Err(VmError::OutOfBounds(address));
            }
            let a = address + i as i64;
            if !self.memory.is_address_valid(a) {
                proof {
                    let v = old(self)@;
                    assert(!v.mem.valid(address + i));
                    assert(!range_all_valid(v, address, spec_copied)) by {
                        if range_all_valid(v, address, spec_copied) {
                            assert(v.mem.valid(address + (i as int)));
                        }
                    }
                }
                return Err(VmError::OutOfBounds(address));
            }
            proof {
                assert(self@.mem.valid(address + i));
            }
            i += 1;
        }
        let ghost m0 = self@.mem;
        let ghost bytes = input@.take(copied as int);
        let mut j: usize = 0;
        proof {
            assert(self@.mem =~= m0.write_bytes(address as int, bytes.take(0)));
        }
        while j < copied
            invariant
                self.wf(),
                j <= copied,
                copied <= input@.len(),
                copied as int == spec_copied,
                spec_copied == (if count < 0 || count >= input@.len() {
                    input@.len() as int
                } else {
                    count as int
                }),
                input@.len() < 0x8000_0000_0000_0000,
                m0.wf(),
                m0 == old(self)@.mem,
                bytes == input@.take(copied as int),
                self.registers == old(self).registers,
                self.memory.program_break == old(self).memory.program_break,
                forall|k: int| 0 <= k < copied ==> #[trigger] m0.valid(address + k),
                self@.mem == m0.write_bytes(address as int, bytes.take(j as int)),
            decreases copied - j,
        {
            proof {
                assert(m0.valid(address + 0));
                assert(address >= 0);
                assert(m0.valid(address + j));
                assert(address + j < m0.total);
                crate::memory::lemma_write_bytes_byte_at(m0, address as int, bytes.take(j as int));
                assert(self@.mem.valid(address + j));
            }
            let a = address + j as i64;
            let b = input[j];
            self.memory.put_byte(a, b);
            proof {
                let target = m0.write_bytes(address as int, bytes.take(j as int + 1));
                assert(self@.mem.heap =~= target.heap);
                assert(self@.mem.stack =~= target.stack);
                assert(self@.mem =~= target);
            }
            j += 1;
        }
        proof {
            assert(bytes.take(copied as int) =~= bytes);
        }
        self.registers.write(REG_A0, copied as i64);
        proof {
            let v = old(self)@;
            assert(range_all_valid(v, address, spec_copied));
            let fin = spec_finish_read(v, address, count, input@);
            assert(fin is Ok);
            assert(self@ =~= fin->Ok_0);
        }
        Ok(())
    }
}

// ---------------------------------------------------------------------------
// Laws: sign extension, call and return
// ---------------------------------------------------------------------------

/// `lb` and `lbu` of the same byte differ only in sign extension: `lbu`
/// returns the byte itself; `lb` agrees with it below 128 and is exactly
/// 256 less from 128 up. In particular a stored `0xff` reads as 255 via
/// `lbu` and as -1 via `lb`.
pub proof fn lemma_lb_lbu_sign_extension(b: u8)
    ensures
        extend_loaded(b as u64, 1, false) == b as i64,
        b < 128 ==> extend_loaded(b as u64, 1, true) == b as i64,
        b >= 128 ==> extend_loaded(b as u64, 1, true) == (b as i64) - 256,
        b == 255 ==> extend_loaded(b as u64, 1, true) == -1 && extend_loaded(b as u64, 1, false)
            == 255,
{
    assert(b as u64 as u8 == b) by (bit_vector);
    assert(b < 128 ==> b as i8 as i64 == b as i64) by (bit_vector);
    assert(b >= 128 ==> b as i8 as i64 == (b as i64) - 256) by (bit_vector);
}

/// `jal rd, t` stores the index of the instruction after itself in `rd`
/// and transfers control to `t`: after the step, `rd` holds the old
/// program counter plus one and `eip` is exactly `t`.
pub proof fn lemma_jal_links(v: VmView, rd: usize, t: i64)
    requires
        v.wf(),
        rd < NUM_REGS,
        rd != REG_EIP,
        v.eip() < i64::MAX,
    ensures
        spec_step(v, InsView::JumpLink { rd, target: BranchTargetView::Abs(t) }) matches Ok((
            v2,
            eff,
        )) && eff == EffectView::Quiet && v2.regs[rd as int] == v.eip() + 1 && v2.eip() == t
            && v2.mem == v.mem,
{
}

/// `ret` transfers control to the address in `ra`: after the step, `eip`
/// holds exactly the value `ra` held. Together with `lemma_jal_links` this
/// is the call/return law: a `jal ra, t` followed later by a `ret` from
/// any state whose `ra` still holds the link lands on the instruction
/// immediately after the `jal`.
pub proof fn lemma_ret_returns(w: VmView)
    requires
        w.wf(),
    ensures
        spec_step(w, InsView::Ret) matches Ok((w2, eff)) && eff == EffectView::Quiet && w2.eip()
            == w.regs[REG_RA as int] && w2.mem == w.mem && forall|r: int|
            0 <= r < NUM_REGS && r != REG_EIP ==> w2.regs[r] == w.regs[r],
{
}

} // verus!
