//! The decoded instruction set and the decoder. An instruction line is
//! decoded once, after assembly, into a closed opcode type; ill-formed
//! lines decode to an `Invalid` instruction that carries the error the
//! evaluator will report if it is ever executed, so that a bad line that is
//! never reached does not fail the program.

use crate::error::{ErrView, VmError};
use crate::registers::{spec_register_index, register_index, NUM_REGS};
use crate::text::{
    find_byte, first_pos, lemma_first_pos, parse_immediate, parse_int, spec_split,
    spec_parse_immediate, spec_parse_int, spec_trim, split_bytes, trim, views_of,
};
use vstd::prelude::*;

verus! {

// ---------------------------------------------------------------------------
// The instruction set
// ---------------------------------------------------------------------------

/// A binary ALU operation. Shifts mask their amount to five bits.
#[derive(Debug, Clone, Copy, PartialEq, Eq)]
pub enum AluOp {
    Add,
    Sub,
    Mul,
    Div,
    Rem,
    Or,
    And,
    Sll,
    Srl,
    Sra,
}

/// A two-register branch condition; `Gtu` and `Ltu` compare unsigned.
#[derive(Debug, Clone, Copy, PartialEq, Eq)]
pub enum BranchCond {
    Eq,
    Ne,
    Le,
    Lt,
    Ge,
    Gt,
    Gtu,
    Ltu,
}

/// A single-register branch condition against zero.
#[derive(Debug, Clone, Copy, PartialEq, Eq)]
pub enum ZeroCond {
    Nez,
    Gtz,
    Gez,
}

/// A memory operand `offset(reg)`.
#[derive(Debug, Clone, Copy, PartialEq, Eq)]
pub struct MemOperand {
    pub offset: i64,
    pub reg: usize,
}

/// Where `j` goes: a register's value, a numeric index, or a symbol the
/// assembler never resolved.
#[derive(Debug, Clone, PartialEq)]
pub enum JumpTarget {
    Reg(usize),
    Abs(i64),
    Unresolved(Vec<u8>),
}

/// Where a branch or `jal` goes: a numeric index, or a symbol the assembler
/// never resolved. An unresolved target only errors when the branch is
/// taken.
#[derive(Debug, Clone, PartialEq)]
pub enum BranchTarget {
    Abs(i64),
    Unresolved(Vec<u8>),
}

/// One decoded instruction.
#[derive(Debug, Clone, PartialEq)]
pub enum Instruction {
    Mv { rd: usize, rs: usize },
    Li { rd: usize, imm: i64 },
    Load { rd: usize, width: usize, signed: bool, mem: MemOperand },
    Store { rs: usize, width: usize, mem: MemOperand },
    Inc { rd: usize },
    Dec { rd: usize },
    Alu { op: AluOp, rd: usize, rs1: usize, rs2: usize },
    AluImm { op: AluOp, rd: usize, rs1: usize, imm: i64 },
    Neg { rd: usize, rs: usize },
    SextW { rd: usize, rs: usize },
    Nop,
    Jump { target: JumpTarget },
    JumpReg { rs: usize },
    JumpLink { rd: usize, target: BranchTarget },
    Branch { cond: BranchCond, rs1: usize, rs2: usize, target: BranchTarget },
    BranchZero { cond: ZeroCond, rs: usize, target: BranchTarget },
    Ret,
    Ecall,
    Invalid { cause: VmError },
}

// ---------------------------------------------------------------------------
// The mathematical models
// ---------------------------------------------------------------------------

pub ghost enum JumpTargetView {
    Reg(usize),
    Abs(i64),
    Unresolved(Seq<u8>),
}

pub ghost enum BranchTargetView {
    Abs(i64),
    Unresolved(Seq<u8>),
}

pub ghost enum InsView {
    Mv { rd: usize, rs: usize },
    Li { rd: usize, imm: i64 },
    Load { rd: usize, width: usize, signed: bool, mem: MemOperand },
    Store { rs: usize, width: usize, mem: MemOperand },
    Inc { rd: usize },
    Dec { rd: usize },
    Alu { op: AluOp, rd: usize, rs1: usize, rs2: usize },
    AluImm { op: AluOp, rd: usize, rs1: usize, imm: i64 },
    Neg { rd: usize, rs: usize },
    SextW { rd: usize, rs: usize },
    Nop,
    Jump { target: JumpTargetView },
    JumpReg { rs: usize },
    JumpLink { rd: usize, target: BranchTargetView },
    Branch { cond: BranchCond, rs1: usize, rs2: usize, target: BranchTargetView },
    BranchZero { cond: ZeroCond, rs: usize, target: BranchTargetView },
    Ret,
    Ecall,
    Invalid { cause: ErrView },
}

impl View for JumpTarget {
    type V = JumpTargetView;

    open spec fn view(&self) -> JumpTargetView {
        match self {
            JumpTarget::Reg(r) => JumpTargetView::Reg(*r),
            JumpTarget::Abs(a) => JumpTargetView::Abs(*a),
            JumpTarget::Unresolved(t) => JumpTargetView::Unresolved(t@),
        }
    }
}

impl View for BranchTarget {
    type V = BranchTargetView;

    open spec fn view(&self) -> BranchTargetView {
        match self {
            BranchTarget::Abs(a) => BranchTargetView::Abs(*a),
            BranchTarget::Unresolved(t) => BranchTargetView::Unresolved(t@),
        }
    }
}

impl View for Instruction {
    type V = InsView;

    open spec fn view(&self) -> InsView {
        match self {
            Instruction::Mv { rd, rs } => InsView::Mv { rd: *rd, rs: *rs },
            Instruction::Li { rd, imm } => InsView::Li { rd: *rd, imm: *imm },
            Instruction::Load { rd, width, signed, mem } => InsView::Load {
                rd: *rd,
                width: *width,
                signed: *signed,
                mem: *mem,
            },
            Instruction::Store { rs, width, mem } => InsView::Store {
                rs: *rs,
                width: *width,
                mem: *mem,
            },
            Instruction::Inc { rd } => InsView::Inc { rd: *rd },
            Instruction::Dec { rd } => InsView::Dec { rd: *rd },
            Instruction::Alu { op, rd, rs1, rs2 } => InsView::Alu {
                op: *op,
                rd: *rd,
                rs1: *rs1,
                rs2: *rs2,
            },
            Instruction::AluImm { op, rd, rs1, imm } => InsView::AluImm {
                op: *op,
                rd: *rd,
                rs1: *rs1,
                imm: *imm,
            },
            Instruction::Neg { rd, rs } => InsView::Neg { rd: *rd, rs: *rs },
            Instruction::SextW { rd, rs } => InsView::SextW { rd: *rd, rs: *rs },
            Instruction::Nop => InsView::Nop,
            Instruction::Jump { target } => InsView::Jump { target: target@ },
            Instruction::JumpReg { rs } => InsView::JumpReg { rs: *rs },
            Instruction::JumpLink { rd, target } => InsView::JumpLink {
                rd: *rd,
                target: target@,
            },
            Instruction::Branch { cond, rs1, rs2, target } => InsView::Branch {
                cond: *cond,
                rs1: *rs1,
                rs2: *rs2,
                target: target@,
            },
            Instruction::BranchZero { cond, rs, target } => InsView::BranchZero {
                cond: *cond,
                rs: *rs,
                target: target@,
            },
            Instruction::Ret => InsView::Ret,
            Instruction::Ecall => InsView::Ecall,
            Instruction::Invalid { cause } => InsView::Invalid { cause: cause@ },
        }
    }
}

impl InsView {
    /// Every register number named by the instruction is in range.
    pub open spec fn wf(self) -> bool {
        match self {
            InsView::Mv { rd, rs } => rd < NUM_REGS && rs < NUM_REGS,
            InsView::Li { rd, .. } => rd < NUM_REGS,
            InsView::Load { rd, width, mem, .. } => rd < NUM_REGS && mem.reg < NUM_REGS && 1
                <= width <= 8,
            InsView::Store { rs, width, mem } => rs < NUM_REGS && mem.reg < NUM_REGS && 1 <= width
                <= 8,
            InsView::Inc { rd } => rd < NUM_REGS,
            InsView::Dec { rd } => rd < NUM_REGS,
            InsView::Alu { rd, rs1, rs2, .. } => rd < NUM_REGS && rs1 < NUM_REGS && rs2 < NUM_REGS,
            InsView::AluImm { rd, rs1, .. } => rd < NUM_REGS && rs1 < NUM_REGS,
            InsView::Neg { rd, rs } => rd < NUM_REGS && rs < NUM_REGS,
            InsView::SextW { rd, rs } => rd < NUM_REGS && rs < NUM_REGS,
            InsView::Nop => true,
            InsView::Jump { target } => match target {
                JumpTargetView::Reg(r) => r < NUM_REGS,
                _ => true,
            },
            InsView::JumpReg { rs } => rs < NUM_REGS,
            InsView::JumpLink { rd, .. } => rd < NUM_REGS,
            InsView::Branch { rs1, rs2, .. } => rs1 < NUM_REGS && rs2 < NUM_REGS,
            InsView::BranchZero { rs, .. } => rs < NUM_REGS,
            InsView::Ret => true,
            InsView::Ecall => true,
            InsView::Invalid { .. } => true,
        }
    }
}

// ---------------------------------------------------------------------------
// Tokenizing
// ---------------------------------------------------------------------------

/// The mnemonic (before the first space) and the rest of the line.
pub open spec fn spec_head_tail(l: Seq<u8>) -> (Seq<u8>, Seq<u8>) {
    match first_pos(l, 32) {
        None => (l, Seq::<u8>::empty()),
        Some(i) => (l.take(i as int), l.skip(i as int + 1)),
    }
}

pub open spec fn trim_all(ps: Seq<Seq<u8>>) -> Seq<Seq<u8>> {
    ps.map_values(|p: Seq<u8>| spec_trim(p))
}

/// The operand list: the rest of the line trimmed, split on commas, each
/// operand trimmed. Never empty: a line without operands yields one empty
/// operand.
pub open spec fn spec_params(rest: Seq<u8>) -> Seq<Seq<u8>> {
    trim_all(spec_split(spec_trim(rest), 44))
}

/// Splits a line into its mnemonic and operand list.
fn tokenize(l: &[u8]) -> (r: (Vec<u8>, Vec<Vec<u8>>))
    ensures
        r.0@ == spec_head_tail(l@).0,
        views_of(r.1@) == spec_params(spec_head_tail(l@).1),
        r.1@.len() >= 1,
{
    let mn: Vec<u8>;
    let rest: Vec<u8>;
    match find_byte(l, 32) {
        Some(i) => {
            proof {
                lemma_first_pos(l@, 32);
                assert(i < l@.len());
            }
            let n = l.len();
            mn = vstd::slice::slice_to_vec(vstd::slice::slice_subrange(l, 0, i));
            rest = vstd::slice::slice_to_vec(vstd::slice::slice_subrange(l, i + 1, n));
            proof {
                assert(mn@ =~= spec_head_tail(l@).0);
                assert(rest@ =~= spec_head_tail(l@).1);
            }
        },
        None => {
            mn = vstd::slice::slice_to_vec(l);
            rest = Vec::new();
            proof {
                assert(rest@ =~= spec_head_tail(l@).1);
            }
        },
    }
    let trimmed = trim(rest.as_slice());
    let raw = split_bytes(trimmed.as_slice(), 44);
    let mut ps: Vec<Vec<u8>> = Vec::new();
    let mut idx: usize = 0;
    while idx < raw.len()
        invariant
            idx <= raw@.len(),
            views_of(ps@) == trim_all(views_of(raw@).take(idx as int)),
        decreases raw@.len() - idx,
    {
        let t = trim(raw[idx].as_slice());
        let ghost prev = views_of(ps@);
        ps.push(t);
        proof {
            let rv = views_of(raw@);
            assert(views_of(ps@) =~= prev.push(t@));
            assert(rv.take(idx as int + 1) =~= rv.take(idx as int).push(rv[idx as int]));
            assert(trim_all(rv.take(idx as int).push(rv[idx as int])) =~= trim_all(
                rv.take(idx as int),
            ).push(spec_trim(rv[idx as int])));
            assert(t@ == spec_trim(rv[idx as int]));
            assert(views_of(ps@) =~= trim_all(rv.take(idx as int + 1)));
        }
        idx += 1;
    }
    proof {
        assert(views_of(raw@).take(raw@.len() as int) =~= views_of(raw@));
        assert(views_of(ps@) =~= spec_params(spec_head_tail(l@).1));
    }
    (mn, ps)
}

// ---------------------------------------------------------------------------
// Mnemonic recognition
// ---------------------------------------------------------------------------

pub open spec fn is1(s: Seq<u8>, a: u8) -> bool {
    s.len() == 1 && s[0] == a
}

pub open spec fn is2(s: Seq<u8>, a: u8, b: u8) -> bool {
    s.len() == 2 && s[0] == a && s[1] == b
}

pub open spec fn is3(s: Seq<u8>, a: u8, b: u8, c: u8) -> bool {
    s.len() == 3 && s[0] == a && s[1] == b && s[2] == c
}

pub open spec fn is4(s: Seq<u8>, a: u8, b: u8, c: u8, d: u8) -> bool {
    s.len() == 4 && s[0] == a && s[1] == b && s[2] == c && s[3] == d
}

pub open spec fn is5(s: Seq<u8>, a: u8, b: u8, c: u8, d: u8, e: u8) -> bool {
    s.len() == 5 && s[0] == a && s[1] == b && s[2] == c && s[3] == d && s[4] == e
}

pub open spec fn is6(s: Seq<u8>, a: u8, b: u8, c: u8, d: u8, e: u8, f: u8) -> bool {
    s.len() == 6 && s[0] == a && s[1] == b && s[2] == c && s[3] == d && s[4] == e && s[5] == f
}

fn eq1(s: &[u8], a: u8) -> (r: bool)
    ensures
        r == is1(s@, a),
{
    s.len() == 1 && s[0] == a
}

fn eq2(s: &[u8], a: u8, b: u8) -> (r: bool)
    ensures
        r == is2(s@, a, b),
{
    s.len() == 2 && s[0] == a && s[1] == b
}

fn eq3(s: &[u8], a: u8, b: u8, c: u8) -> (r: bool)
    ensures
        r == is3(s@, a, b, c),
{
    s.len() == 3 && s[0] == a && s[1] == b && s[2] == c
}

fn eq4(s: &[u8], a: u8, b: u8, c: u8, d: u8) -> (r: bool)
    ensures
        r == is4(s@, a, b, c, d),
{
    s.len() == 4 && s[0] == a && s[1] == b && s[2] == c && s[3] == d
}

fn eq5(s: &[u8], a: u8, b: u8, c: u8, d: u8, e: u8) -> (r: bool)
    ensures
        r == is5(s@, a, b, c, d, e),
{
    s.len() == 5 && s[0] == a && s[1] == b && s[2] == c && s[3] == d && s[4] == e
}

fn eq6(s: &[u8], a: u8, b: u8, c: u8, d: u8, e: u8, f: u8) -> (r: bool)
    ensures
        r == is6(s@, a, b, c, d, e, f),
{
    s.len() == 6 && s[0] == a && s[1] == b && s[2] == c && s[3] == d && s[4] == e && s[5] == f
}

// ---------------------------------------------------------------------------
// Operand shapes
// ---------------------------------------------------------------------------

/// Does an executable result agree with its model?
pub open spec fn res_models<T>(r: Result<T, VmError>, s: Result<T, ErrView>) -> bool {
    match r {
        Ok(a) => s matches Ok(b) && a == b,
        Err(e) => s matches Err(ev) && e@ == ev,
    }
}

pub open spec fn spec_reg(p: Seq<u8>) -> Result<usize, ErrView> {
    match spec_register_index(p) {
        Some(i) => Ok(i),
        None => Err(ErrView::UnknownRegister(p)),
    }
}

/// A memory operand `offset(reg)`: a decimal offset, an opening parenthesis,
/// a register name, a closing parenthesis.
pub open spec fn spec_parse_mem(p: Seq<u8>) -> Result<MemOperand, ErrView> {
    if p.len() == 0 || p.last() != 41 {
        Err(ErrView::MalformedOperand(p))
    } else {
        match first_pos(p, 40) {
            None => Err(ErrView::MalformedOperand(p)),
            Some(i) => {
                let off_txt = p.take(i as int);
                let reg_txt = p.subrange(i as int + 1, p.len() - 1);
                match spec_parse_int(off_txt) {
                    None => Err(ErrView::MalformedOperand(p)),
                    Some(off) => match spec_register_index(reg_txt) {
                        None => Err(ErrView::UnknownRegister(reg_txt)),
                        Some(rg) => Ok(MemOperand { offset: off, reg: rg }),
                    },
                }
            },
        }
    }
}

pub open spec fn spec_rr(l: Seq<u8>, ps: Seq<Seq<u8>>) -> Result<(usize, usize), ErrView> {
    if ps.len() < 2 {
        Err(ErrView::MalformedOperand(l))
    } else {
        match spec_reg(ps[0]) {
            Err(e) => Err(e),
            Ok(rd) => match spec_reg(ps[1]) {
                Err(e) => Err(e),
                Ok(rs) => Ok((rd, rs)),
            },
        }
    }
}

pub open spec fn spec_rrr(l: Seq<u8>, ps: Seq<Seq<u8>>) -> Result<(usize, usize, usize), ErrView> {
    if ps.len() < 3 {
        Err(ErrView::MalformedOperand(l))
    } else {
        match spec_reg(ps[0]) {
            Err(e) => Err(e),
            Ok(rd) => match spec_reg(ps[1]) {
                Err(e) => Err(e),
                Ok(rs1) => match spec_reg(ps[2]) {
                    Err(e) => Err(e),
                    Ok(rs2) => Ok((rd, rs1, rs2)),
                },
            },
        }
    }
}

/// Two registers and an immediate; `hex` says whether the immediate may be
/// written in hexadecimal.
pub open spec fn spec_rri(l: Seq<u8>, ps: Seq<Seq<u8>>, hex: bool) -> Result<
    (usize, usize, i64),
    ErrView,
> {
    if ps.len() < 3 {
        Err(ErrView::MalformedOperand(l))
    } else {
        match spec_reg(ps[0]) {
            Err(e) => Err(e),
            Ok(rd) => match spec_reg(ps[1]) {
                Err(e) => Err(e),
                Ok(rs1) => {
                    let imm = if hex {
                        spec_parse_immediate(ps[2])
                    } else {
                        spec_parse_int(ps[2])
                    };
                    match imm {
                        None => Err(ErrView::MalformedOperand(ps[2])),
                        Some(v) => Ok((rd, rs1, v)),
                    }
                },
            },
        }
    }
}

pub open spec fn spec_ri(l: Seq<u8>, ps: Seq<Seq<u8>>) -> Result<(usize, i64), ErrView> {
    if ps.len() < 2 {
        Err(ErrView::MalformedOperand(l))
    } else {
        match spec_reg(ps[0]) {
            Err(e) => Err(e),
            Ok(rd) => match spec_parse_immediate(ps[1]) {
                None => Err(ErrView::MalformedOperand(ps[1])),
                Some(v) => Ok((rd, v)),
            },
        }
    }
}

pub open spec fn spec_r1(l: Seq<u8>, ps: Seq<Seq<u8>>) -> Result<usize, ErrView> {
    if ps.len() < 1 {
        Err(ErrView::MalformedOperand(l))
    } else {
        spec_reg(ps[0])
    }
}

pub open spec fn spec_rmem(l: Seq<u8>, ps: Seq<Seq<u8>>) -> Result<(usize, MemOperand), ErrView> {
    if ps.len() < 2 {
        Err(ErrView::MalformedOperand(l))
    } else {
        match spec_reg(ps[0]) {
            Err(e) => Err(e),
            Ok(rd) => match spec_parse_mem(ps[1]) {
                Err(e) => Err(e),
                Ok(m) => Ok((rd, m)),
            },
        }
    }
}

/// A branch target: numeric when it parses, otherwise the unresolved text.
pub open spec fn spec_btarget(p: Seq<u8>) -> BranchTargetView {
    match spec_parse_int(p) {
        Some(t) => BranchTargetView::Abs(t),
        None => BranchTargetView::Unresolved(p),
    }
}

pub open spec fn spec_brr(l: Seq<u8>, ps: Seq<Seq<u8>>) -> Result<
    (usize, usize, BranchTargetView),
    ErrView,
> {
    if ps.len() < 3 {
        Err(ErrView::MalformedOperand(l))
    } else {
        match spec_reg(ps[0]) {
            Err(e) => Err(e),
            Ok(rs1) => match spec_reg(ps[1]) {
                Err(e) => Err(e),
                Ok(rs2) => Ok((rs1, rs2, spec_btarget(ps[2]))),
            },
        }
    }
}

pub open spec fn spec_brz(l: Seq<u8>, ps: Seq<Seq<u8>>) -> Result<
    (usize, BranchTargetView),
    ErrView,
> {
    if ps.len() < 2 {
        Err(ErrView::MalformedOperand(l))
    } else {
        match spec_reg(ps[0]) {
            Err(e) => Err(e),
            Ok(rs) => Ok((rs, spec_btarget(ps[1]))),
        }
    }
}

/// `jal rd, target`: the first operand is the link register, the last the
/// target.
pub open spec fn spec_jal(l: Seq<u8>, ps: Seq<Seq<u8>>) -> Result<
    (usize, BranchTargetView),
    ErrView,
> {
    if ps.len() < 1 {
        Err(ErrView::MalformedOperand(l))
    } else {
        match spec_reg(ps[0]) {
            Err(e) => Err(e),
            Ok(rd) => Ok((rd, spec_btarget(ps[ps.len() - 1]))),
        }
    }
}

/// `j target`: a register's value when the operand names a register, else a
/// numeric index, else an unresolved symbol.
pub open spec fn spec_jump(l: Seq<u8>, ps: Seq<Seq<u8>>) -> Result<JumpTargetView, ErrView> {
    if ps.len() < 1 {
        Err(ErrView::MalformedOperand(l))
    } else {
        match spec_register_index(ps[0]) {
            Some(rg) => Ok(JumpTargetView::Reg(rg)),
            None => match spec_parse_int(ps[0]) {
                Some(t) => Ok(JumpTargetView::Abs(t)),
                None => Ok(JumpTargetView::Unresolved(ps[0])),
            },
        }
    }
}

// ---------------------------------------------------------------------------
// Executable operand parsing
// ---------------------------------------------------------------------------

fn p_reg(p: &Vec<u8>) -> (r: Result<usize, VmError>)
    ensures
        res_models(r, spec_reg(p@)),
        r matches Ok(i) ==> i < NUM_REGS,
{
    match register_index(p.as_slice()) {
        Some(i) => Ok(i),
        None => Err(VmError::UnknownRegister(p.clone())),
    }
}

fn p_mem(p: &Vec<u8>) -> (r: Result<MemOperand, VmError>)
    ensures
        res_models(r, spec_parse_mem(p@)),
        r matches Ok(m) ==> m.reg < NUM_REGS,
{
    if p.len() == 0 {
        return Err(VmError::MalformedOperand(p.clone()));
    }
    if p[p.len() - 1] != ')' as u8 {
        return Err(VmError::MalformedOperand(p.clone()));
    }
    match find_byte(p.as_slice(), '(' as u8) {
        None => Err(VmError::MalformedOperand(p.clone())),
        Some(i) => {
            proof {
                lemma_first_pos(p@, 40);
                assert(p@[i as int] == 40);
                assert(p@[p@.len() - 1] == 41);
                assert(i < p@.len() - 1);
            }
            let off_txt = vstd::slice::slice_subrange(p.as_slice(), 0, i);
            let reg_txt = vstd::slice::slice_subrange(p.as_slice(), i + 1, p.len() - 1);
            proof {
                assert(off_txt@ =~= p@.take(i as int));
                assert(reg_txt@ =~= p@.subrange(i as int + 1, p@.len() - 1));
            }
            match parse_int(off_txt) {
                None => Err(VmError::MalformedOperand(p.clone())),
                Some(off) => match register_index(reg_txt) {
                    None => Err(VmError::UnknownRegister(vstd::slice::slice_to_vec(reg_txt))),
                    Some(rg) => Ok(MemOperand { offset: off, reg: rg }),
                },
            }
        },
    }
}

fn p_rr(l: &[u8], ps: &Vec<Vec<u8>>) -> (r: Result<(usize, usize), VmError>)
    ensures
        res_models(r, spec_rr(l@, views_of(ps@))),
        r matches Ok(t) ==> t.0 < NUM_REGS && t.1 < NUM_REGS,
{
    if ps.len() < 2 {
        return Err(VmError::MalformedOperand(vstd::slice::slice_to_vec(l)));
    }
    let rd = match p_reg(&ps[0]) {
        Ok(i) => i,
        Err(e) => {
            return Err(e);
        },
    };
    let rs = match p_reg(&ps[1]) {
        Ok(i) => i,
        Err(e) => {
            return Err(e);
        },
    };
    Ok((rd, rs))
}

fn p_rrr(l: &[u8], ps: &Vec<Vec<u8>>) -> (r: Result<(usize, usize, usize), VmError>)
    ensures
        res_models(r, spec_rrr(l@, views_of(ps@))),
        r matches Ok(t) ==> t.0 < NUM_REGS && t.1 < NUM_REGS && t.2 < NUM_REGS,
{
    if ps.len() < 3 {
        return Err(VmError::MalformedOperand(vstd::slice::slice_to_vec(l)));
    }
    let rd = match p_reg(&ps[0]) {
        Ok(i) => i,
        Err(e) => {
            return Err(e);
        },
    };
    let rs1 = match p_reg(&ps[1]) {
        Ok(i) => i,
        Err(e) => {
            return Err(e);
        },
    };
    let rs2 = match p_reg(&ps[2]) {
        Ok(i) => i,
        Err(e) => {
            return Err(e);
        },
    };
    Ok((rd, rs1, rs2))
}

fn p_rri(l: &[u8], ps: &Vec<Vec<u8>>, hex: bool) -> (r: Result<(usize, usize, i64), VmError>)
    ensures
        res_models(r, spec_rri(l@, views_of(ps@), hex)),
        r matches Ok(t) ==> t.0 < NUM_REGS && t.1 < NUM_REGS,
{
    if ps.len() < 3 {
        return Err(VmError::MalformedOperand(vstd::slice::slice_to_vec(l)));
    }
    let rd = match p_reg(&ps[0]) {
        Ok(i) => i,
        Err(e) => {
            return Err(e);
        },
    };
    let rs1 = match p_reg(&ps[1]) {
        Ok(i) => i,
        Err(e) => {
            return Err(e);
        },
    };
    let imm = if hex {
        parse_immediate(ps[2].as_slice())
    } else {
        parse_int(ps[2].as_slice())
    };
    match imm {
        None => Err(VmError::MalformedOperand(ps[2].clone())),
        Some(v) => Ok((rd, rs1, v)),
    }
}

fn p_ri(l: &[u8], ps: &Vec<Vec<u8>>) -> (r: Result<(usize, i64), VmError>)
    ensures
        res_models(r, spec_ri(l@, views_of(ps@))),
        r matches Ok(t) ==> t.0 < NUM_REGS,
{
    if ps.len() < 2 {
        return Err(VmError::MalformedOperand(vstd::slice::slice_to_vec(l)));
    }
    let rd = match p_reg(&ps[0]) {
        Ok(i) => i,
        Err(e) => {
            return Err(e);
        },
    };
    match parse_immediate(ps[1].as_slice()) {
        None => Err(VmError::MalformedOperand(ps[1].clone())),
        Some(v) => Ok((rd, v)),
    }
}

fn p_r1(l: &[u8], ps: &Vec<Vec<u8>>) -> (r: Result<usize, VmError>)
    ensures
        res_models(r, spec_r1(l@, views_of(ps@))),
        r matches Ok(i) ==> i < NUM_REGS,
{
    if ps.len() < 1 {
        return Err(VmError::MalformedOperand(vstd::slice::slice_to_vec(l)));
    }
    p_reg(&ps[0])
}

fn p_rmem(l: &[u8], ps: &Vec<Vec<u8>>) -> (r: Result<(usize, MemOperand), VmError>)
    ensures
        res_models(r, spec_rmem(l@, views_of(ps@))),
        r matches Ok(t) ==> t.0 < NUM_REGS && t.1.reg < NUM_REGS,
{
    if ps.len() < 2 {
        return Err(VmError::MalformedOperand(vstd::slice::slice_to_vec(l)));
    }
    let rd = match p_reg(&ps[0]) {
        Ok(i) => i,
        Err(e) => {
            return Err(e);
        },
    };
    match p_mem(&ps[1]) {
        Ok(m) => Ok((rd, m)),
        Err(e) => Err(e),
    }
}

fn p_btarget(p: &Vec<u8>) -> (r: BranchTarget)
    ensures
        r@ == spec_btarget(p@),
{
    match parse_int(p.as_slice()) {
        Some(t) => BranchTarget::Abs(t),
        None => BranchTarget::Unresolved(p.clone()),
    }
}

fn p_brr(l: &[u8], ps: &Vec<Vec<u8>>) -> (r: Result<(usize, usize, BranchTarget), VmError>)
    ensures
        match spec_brr(l@, views_of(ps@)) {
            Ok(st) => r matches Ok(t) && t.0 == st.0 && t.1 == st.1 && t.2@ == st.2 && t.0
                < NUM_REGS && t.1 < NUM_REGS,
            Err(ev) => r matches Err(e) && e@ == ev,
        },
{
    if ps.len() < 3 {
        return Err(VmError::MalformedOperand(vstd::slice::slice_to_vec(l)));
    }
    let rs1 = match p_reg(&ps[0]) {
        Ok(i) => i,
        Err(e) => {
            return Err(e);
        },
    };
    let rs2 = match p_reg(&ps[1]) {
        Ok(i) => i,
        Err(e) => {
            return Err(e);
        },
    };
    Ok((rs1, rs2, p_btarget(&ps[2])))
}

fn p_brz(l: &[u8], ps: &Vec<Vec<u8>>) -> (r: Result<(usize, BranchTarget), VmError>)
    ensures
        match spec_brz(l@, views_of(ps@)) {
            Ok(st) => r matches Ok(t) && t.0 == st.0 && t.1@ == st.1 && t.0 < NUM_REGS,
            Err(ev) => r matches Err(e) && e@ == ev,
        },
{
    if ps.len() < 2 {
        return Err(VmError::MalformedOperand(vstd::slice::slice_to_vec(l)));
    }
    let rs = match p_reg(&ps[0]) {
        Ok(i) => i,
        Err(e) => {
            return Err(e);
        },
    };
    Ok((rs, p_btarget(&ps[1])))
}

fn p_jal(l: &[u8], ps: &Vec<Vec<u8>>) -> (r: Result<(usize, BranchTarget), VmError>)
    ensures
        match spec_jal(l@, views_of(ps@)) {
            Ok(st) => r matches Ok(t) && t.0 == st.0 && t.1@ == st.1 && t.0 < NUM_REGS,
            Err(ev) => r matches Err(e) && e@ == ev,
        },
{
    if ps.len() < 1 {
        return Err(VmError::MalformedOperand(vstd::slice::slice_to_vec(l)));
    }
    let rd = match p_reg(&ps[0]) {
        Ok(i) => i,
        Err(e) => {
            return Err(e);
        },
    };
    Ok((rd, p_btarget(&ps[ps.len() - 1])))
}

fn p_jump(l: &[u8], ps: &Vec<Vec<u8>>) -> (r: Result<JumpTarget, VmError>)
    ensures
        match spec_jump(l@, views_of(ps@)) {
            Ok(st) => r matches Ok(t) && t@ == st && (t matches JumpTarget::Reg(rg) ==> rg
                < NUM_REGS),
            Err(ev) => r matches Err(e) && e@ == ev,
        },
{
    if ps.len() < 1 {
        return Err(VmError::MalformedOperand(vstd::slice::slice_to_vec(l)));
    }
    match register_index(ps[0].as_slice()) {
        Some(rg) => Ok(JumpTarget::Reg(rg)),
        None => match parse_int(ps[0].as_slice()) {
            Some(t) => Ok(JumpTarget::Abs(t)),
            None => Ok(JumpTarget::Unresolved(ps[0].clone())),
        },
    }
}

// ---------------------------------------------------------------------------
// Decoding
// ---------------------------------------------------------------------------

pub open spec fn mk_load(res: Result<(usize, MemOperand), ErrView>, width: usize, signed: bool)
    -> InsView {
    match res {
        Ok(t) => InsView::Load { rd: t.0, width, signed, mem: t.1 },
        Err(e) => InsView::Invalid { cause: e },
    }
}

pub open spec fn mk_store(res: Result<(usize, MemOperand), ErrView>, width: usize) -> InsView {
    match res {
        Ok(t) => InsView::Store { rs: t.0, width, mem: t.1 },
        Err(e) => InsView::Invalid { cause: e },
    }
}

pub open spec fn mk_alu(res: Result<(usize, usize, usize), ErrView>, op: AluOp) -> InsView {
    match res {
        Ok(t) => InsView::Alu { op, rd: t.0, rs1: t.1, rs2: t.2 },
        Err(e) => InsView::Invalid { cause: e },
    }
}

pub open spec fn mk_alu_imm(res: Result<(usize, usize, i64), ErrView>, op: AluOp) -> InsView {
    match res {
        Ok(t) => InsView::AluImm { op, rd: t.0, rs1: t.1, imm: t.2 },
        Err(e) => InsView::Invalid { cause: e },
    }
}

pub open spec fn mk_branch(res: Result<(usize, usize, BranchTargetView), ErrView>, cond: BranchCond)
    -> InsView {
    match res {
        Ok(t) => InsView::Branch { cond, rs1: t.0, rs2: t.1, target: t.2 },
        Err(e) => InsView::Invalid { cause: e },
    }
}

pub open spec fn mk_branch_zero(res: Result<(usize, BranchTargetView), ErrView>, cond: ZeroCond)
    -> InsView {
    match res {
        Ok(t) => InsView::BranchZero { cond, rs: t.0, target: t.1 },
        Err(e) => InsView::Invalid { cause: e },
    }
}

/// What one cleaned instruction line decodes to. Mnemonics are matched
/// exactly; an unknown mnemonic or a bad operand yields an `Invalid`
/// instruction carrying the error to report at execution time.
pub open spec fn spec_decode(l: Seq<u8>) -> InsView {
    let mn = spec_head_tail(l).0;
    let ps = spec_params(spec_head_tail(l).1);
    if is2(mn, 'm' as u8, 'v' as u8) {
        match spec_rr(l, ps) {
            Ok(t) => InsView::Mv { rd: t.0, rs: t.1 },
            Err(e) => InsView::Invalid { cause: e },
        }
    } else if is2(mn, 'l' as u8, 'd' as u8) {
        mk_load(spec_rmem(l, ps), 8, true)
    } else if is2(mn, 'l' as u8, 'w' as u8) {
        mk_load(spec_rmem(l, ps), 4, true)
    } else if is3(mn, 'l' as u8, 'w' as u8, 'u' as u8) {
        mk_load(spec_rmem(l, ps), 4, false)
    } else if is3(mn, 'l' as u8, 'b' as u8, 'u' as u8) {
        mk_load(spec_rmem(l, ps), 1, false)
    } else if is2(mn, 'l' as u8, 'b' as u8) {
        mk_load(spec_rmem(l, ps), 1, true)
    } else if is3(mn, 'l' as u8, 'h' as u8, 'u' as u8) {
        mk_load(spec_rmem(l, ps), 2, false)
    } else if is2(mn, 'l' as u8, 'i' as u8) || is3(mn, 'l' as u8, 'l' as u8, 'a' as u8) || is2(
        mn,
        'l' as u8,
        'a' as u8,
    ) {
        match spec_ri(l, ps) {
            Ok(t) => InsView::Li { rd: t.0, imm: t.1 },
            Err(e) => InsView::Invalid { cause: e },
        }
    } else if is2(mn, 's' as u8, 'd' as u8) {
        mk_store(spec_rmem(l, ps), 8)
    } else if is2(mn, 's' as u8, 'w' as u8) {
        mk_store(spec_rmem(l, ps), 4)
    } else if is2(mn, 's' as u8, 'h' as u8) {
        mk_store(spec_rmem(l, ps), 2)
    } else if is2(mn, 's' as u8, 'b' as u8) {
        mk_store(spec_rmem(l, ps), 1)
    } else if is3(mn, 'i' as u8, 'n' as u8, 'c' as u8) {
        match spec_r1(l, ps) {
            Ok(rd) => InsView::Inc { rd },
            Err(e) => InsView::Invalid { cause: e },
        }
    } else if is3(mn, 'd' as u8, 'e' as u8, 'c' as u8) {
        match spec_r1(l, ps) {
            Ok(rd) => InsView::Dec { rd },
            Err(e) => InsView::Invalid { cause: e },
        }
    } else if is3(mn, 'a' as u8, 'd' as u8, 'd' as u8) || is4(
        mn,
        'a' as u8,
        'd' as u8,
        'd' as u8,
        'w' as u8,
    ) {
        mk_alu(spec_rrr(l, ps), AluOp::Add)
    } else if is4(mn, 'a' as u8, 'd' as u8, 'd' as u8, 'i' as u8) || is5(
        mn,
        'a' as u8,
        'd' as u8,
        'd' as u8,
        'i' as u8,
        'w' as u8,
    ) {
        mk_alu_imm(spec_rri(l, ps, false), AluOp::Add)
    } else if is3(mn, 's' as u8, 'u' as u8, 'b' as u8) || is4(
        mn,
        's' as u8,
        'u' as u8,
        'b' as u8,
        'w' as u8,
    ) {
        mk_alu(spec_rrr(l, ps), AluOp::Sub)
    } else if is3(mn, 'm' as u8, 'u' as u8, 'l' as u8) || is4(
        mn,
        'm' as u8,
        'u' as u8,
        'l' as u8,
        'w' as u8,
    ) {
        mk_alu(spec_rrr(l, ps), AluOp::Mul)
    } else if is4(mn, 'd' as u8, 'i' as u8, 'v' as u8, 'w' as u8) {
        mk_alu(spec_rrr(l, ps), AluOp::Div)
    } else if is4(mn, 'n' as u8, 'e' as u8, 'g' as u8, 'w' as u8) {
        match spec_rr(l, ps) {
            Ok(t) => InsView::Neg { rd: t.0, rs: t.1 },
            Err(e) => InsView::Invalid { cause: e },
        }
    } else if is3(mn, 'n' as u8, 'o' as u8, 'p' as u8) {
        InsView::Nop
    } else if is1(mn, 'j' as u8) {
        match spec_jump(l, ps) {
            Ok(t) => InsView::Jump { target: t },
            Err(e) => InsView::Invalid { cause: e },
        }
    } else if is2(mn, 'j' as u8, 'r' as u8) {
        match spec_r1(l, ps) {
            Ok(rs) => InsView::JumpReg { rs },
            Err(e) => InsView::Invalid { cause: e },
        }
    } else if is3(mn, 'j' as u8, 'a' as u8, 'l' as u8) {
        match spec_jal(l, ps) {
            Ok(t) => InsView::JumpLink { rd: t.0, target: t.1 },
            Err(e) => InsView::Invalid { cause: e },
        }
    } else if is3(mn, 'b' as u8, 'n' as u8, 'e' as u8) {
        mk_branch(spec_brr(l, ps), BranchCond::Ne)
    } else if is3(mn, 'b' as u8, 'e' as u8, 'q' as u8) {
        mk_branch(spec_brr(l, ps), BranchCond::Eq)
    } else if is3(mn, 'b' as u8, 'l' as u8, 'e' as u8) {
        mk_branch(spec_brr(l, ps), BranchCond::Le)
    } else if is3(mn, 'b' as u8, 'l' as u8, 't' as u8) {
        mk_branch(spec_brr(l, ps), BranchCond::Lt)
    } else if is4(mn, 'b' as u8, 'n' as u8, 'e' as u8, 'z' as u8) {
        mk_branch_zero(spec_brz(l, ps), ZeroCond::Nez)
    } else if is3(mn, 'b' as u8, 'g' as u8, 'e' as u8) {
        mk_branch(spec_brr(l, ps), BranchCond::Ge)
    } else if is3(mn, 'b' as u8, 'g' as u8, 't' as u8) {
        mk_branch(spec_brr(l, ps), BranchCond::Gt)
    } else if is4(mn, 'b' as u8, 'g' as u8, 't' as u8, 'z' as u8) {
        mk_branch_zero(spec_brz(l, ps), ZeroCond::Gtz)
    } else if is4(mn, 'b' as u8, 'g' as u8, 'e' as u8, 'z' as u8) {
        mk_branch_zero(spec_brz(l, ps), ZeroCond::Gez)
    } else if is4(mn, 'b' as u8, 'g' as u8, 't' as u8, 'u' as u8) {
        mk_branch(spec_brr(l, ps), BranchCond::Gtu)
    } else if is4(mn, 'b' as u8, 'l' as u8, 't' as u8, 'u' as u8) {
        mk_branch(spec_brr(l, ps), BranchCond::Ltu)
    } else if is3(mn, 'r' as u8, 'e' as u8, 't' as u8) {
        InsView::Ret
    } else if is4(mn, 's' as u8, 'l' as u8, 'l' as u8, 'i' as u8) || is5(
        mn,
        's' as u8,
        'l' as u8,
        'l' as u8,
        'i' as u8,
        'w' as u8,
    ) {
        mk_alu_imm(spec_rri(l, ps, true), AluOp::Sll)
    } else if is4(mn, 's' as u8, 'r' as u8, 'l' as u8, 'i' as u8) || is5(
        mn,
        's' as u8,
        'l' as u8,
        'r' as u8,
        'i' as u8,
        'w' as u8,
    ) {
        mk_alu_imm(spec_rri(l, ps, true), AluOp::Srl)
    } else if is5(mn, 's' as u8, 'r' as u8, 'a' as u8, 'i' as u8, 'w' as u8) {
        mk_alu_imm(spec_rri(l, ps, true), AluOp::Sra)
    } else if is2(mn, 'o' as u8, 'r' as u8) {
        mk_alu(spec_rrr(l, ps), AluOp::Or)
    } else if is3(mn, 'o' as u8, 'r' as u8, 'i' as u8) {
        mk_alu_imm(spec_rri(l, ps, true), AluOp::Or)
    } else if is3(mn, 'a' as u8, 'n' as u8, 'd' as u8) {
        mk_alu(spec_rrr(l, ps), AluOp::And)
    } else if is4(mn, 'a' as u8, 'n' as u8, 'd' as u8, 'i' as u8) {
        mk_alu_imm(spec_rri(l, ps, true), AluOp::And)
    } else if is4(mn, 'r' as u8, 'e' as u8, 'm' as u8, 'w' as u8) {
        mk_alu(spec_rrr(l, ps), AluOp::Rem)
    } else if is6(mn, 's' as u8, 'e' as u8, 'x' as u8, 't' as u8, '.' as u8, 'w' as u8) {
        match spec_rr(l, ps) {
            Ok(t) => InsView::SextW { rd: t.0, rs: t.1 },
            Err(e) => InsView::Invalid { cause: e },
        }
    } else if is5(mn, 'e' as u8, 'c' as u8, 'a' as u8, 'l' as u8, 'l' as u8) {
        InsView::Ecall
    } else {
        InsView::Invalid { cause: ErrView::UnknownInstruction(mn) }
    }
}

/// Decodes one cleaned instruction line.
pub fn decode(line: &[u8]) -> (r: Instruction)
    ensures
        r@ == spec_decode(line@),
        r@.wf(),
{
    let (mn_v, ps) = tokenize(line);
    let mn = mn_v.as_slice();
    let r = if eq2(mn, 'm' as u8, 'v' as u8) {
        match p_rr(line, &ps) {
            Ok(t) => Instruction::Mv { rd: t.0, rs: t.1 },
            Err(e) => Instruction::Invalid { cause: e },
        }
    } else if eq2(mn, 'l' as u8, 'd' as u8) {
        match p_rmem(line, &ps) {
            Ok(t) => Instruction::Load { rd: t.0, width: 8, signed: true, mem: t.1 },
            Err(e) => Instruction::Invalid { cause: e },
        }
    } else if eq2(mn, 'l' as u8, 'w' as u8) {
        match p_rmem(line, &ps) {
            Ok(t) => Instruction::Load { rd: t.0, width: 4, signed: true, mem: t.1 },
            Err(e) => Instruction::Invalid { cause: e },
        }
    } else if eq3(mn, 'l' as u8, 'w' as u8, 'u' as u8) {
        match p_rmem(line, &ps) {
            Ok(t) => Instruction::Load { rd: t.0, width: 4, signed: false, mem: t.1 },
            Err(e) => Instruction::Invalid { cause: e },
        }
    } else if eq3(mn, 'l' as u8, 'b' as u8, 'u' as u8) {
        match p_rmem(line, &ps) {
            Ok(t) => Instruction::Load { rd: t.0, width: 1, signed: false, mem: t.1 },
            Err(e) => Instruction::Invalid { cause: e },
        }
    } else if eq2(mn, 'l' as u8, 'b' as u8) {
        match p_rmem(line, &ps) {
            Ok(t) => Instruction::Load { rd: t.0, width: 1, signed: true, mem: t.1 },
            Err(e) => Instruction::Invalid { cause: e },
        }
    } else if eq3(mn, 'l' as u8, 'h' as u8, 'u' as u8) {
        match p_rmem(line, &ps) {
            Ok(t) => Instruction::Load { rd: t.0, width: 2, signed: false, mem: t.1 },
            Err(e) => Instruction::Invalid { cause: e },
        }
    } else if eq2(mn, 'l' as u8, 'i' as u8) || eq3(mn, 'l' as u8, 'l' as u8, 'a' as u8) || eq2(
        mn,
        'l' as u8,
        'a' as u8,
    ) {
        match p_ri(line, &ps) {
            Ok(t) => Instruction::Li { rd: t.0, imm: t.1 },
            Err(e) => Instruction::Invalid { cause: e },
        }
    } else if eq2(mn, 's' as u8, 'd' as u8) {
        match p_rmem(line, &ps) {
            Ok(t) => Instruction::Store { rs: t.0, width: 8, mem: t.1 },
            Err(e) => Instruction::Invalid { cause: e },
        }
    } else if eq2(mn, 's' as u8, 'w' as u8) {
        match p_rmem(line, &ps) {
            Ok(t) => Instruction::Store { rs: t.0, width: 4, mem: t.1 },
            Err(e) => Instruction::Invalid { cause: e },
        }
    } else if eq2(mn, 's' as u8, 'h' as u8) {
        match p_rmem(line, &ps) {
            Ok(t) => Instruction::Store { rs: t.0, width: 2, mem: t.1 },
            Err(e) => Instruction::Invalid { cause: e },
        }
    } else if eq2(mn, 's' as u8, 'b' as u8) {
        match p_rmem(line, &ps) {
            Ok(t) => Instruction::Store { rs: t.0, width: 1, mem: t.1 },
            Err(e) => Instruction::Invalid { cause: e },
        }
    } else if eq3(mn, 'i' as u8, 'n' as u8, 'c' as u8) {
        match p_r1(line, &ps) {
            Ok(rd) => Instruction::Inc { rd },
            Err(e) => Instruction::Invalid { cause: e },
        }
    } else if eq3(mn, 'd' as u8, 'e' as u8, 'c' as u8) {
        match p_r1(line, &ps) {
            Ok(rd) => Instruction::Dec { rd },
            Err(e) => Instruction::Invalid { cause: e },
        }
    } else if eq3(mn, 'a' as u8, 'd' as u8, 'd' as u8) || eq4(
        mn,
        'a' as u8,
        'd' as u8,
        'd' as u8,
        'w' as u8,
    ) {
        match p_rrr(line, &ps) {
            Ok(t) => Instruction::Alu { op: AluOp::Add, rd: t.0, rs1: t.1, rs2: t.2 },
            Err(e) => Instruction::Invalid { cause: e },
        }
    } else if eq4(mn, 'a' as u8, 'd' as u8, 'd' as u8, 'i' as u8) || eq5(
        mn,
        'a' as u8,
        'd' as u8,
        'd' as u8,
        'i' as u8,
        'w' as u8,
    ) {
        match p_rri(line, &ps, false) {
            Ok(t) => Instruction::AluImm { op: AluOp::Add, rd: t.0, rs1: t.1, imm: t.2 },
            Err(e) => Instruction::Invalid { cause: e },
        }
    } else if eq3(mn, 's' as u8, 'u' as u8, 'b' as u8) || eq4(
        mn,
        's' as u8,
        'u' as u8,
        'b' as u8,
        'w' as u8,
    ) {
        match p_rrr(line, &ps) {
            Ok(t) => Instruction::Alu { op: AluOp::Sub, rd: t.0, rs1: t.1, rs2: t.2 },
            Err(e) => Instruction::Invalid { cause: e },
        }
    } else if eq3(mn, 'm' as u8, 'u' as u8, 'l' as u8) || eq4(
        mn,
        'm' as u8,
        'u' as u8,
        'l' as u8,
        'w' as u8,
    ) {
        match p_rrr(line, &ps) {
            Ok(t) => Instruction::Alu { op: AluOp::Mul, rd: t.0, rs1: t.1, rs2: t.2 },
            Err(e) => Instruction::Invalid { cause: e },
        }
    } else if eq4(mn, 'd' as u8, 'i' as u8, 'v' as u8, 'w' as u8) {
        match p_rrr(line, &ps) {
            Ok(t) => Instruction::Alu { op: AluOp::Div, rd: t.0, rs1: t.1, rs2: t.2 },
            Err(e) => Instruction::Invalid { cause: e },
        }
    } else if eq4(mn, 'n' as u8, 'e' as u8, 'g' as u8, 'w' as u8) {
        match p_rr(line, &ps) {
            Ok(t) => Instruction::Neg { rd: t.0, rs: t.1 },
            Err(e) => Instruction::Invalid { cause: e },
        }
    } else if eq3(mn, 'n' as u8, 'o' as u8, 'p' as u8) {
        Instruction::Nop
    } else if eq1(mn, 'j' as u8) {
        match p_jump(line, &ps) {
            Ok(t) => Instruction::Jump { target: t },
            Err(e) => Instruction::Invalid { cause: e },
        }
    } else if eq2(mn, 'j' as u8, 'r' as u8) {
        match p_r1(line, &ps) {
            Ok(rs) => Instruction::JumpReg { rs },
            Err(e) => Instruction::Invalid { cause: e },
        }
    } else if eq3(mn, 'j' as u8, 'a' as u8, 'l' as u8) {
        match p_jal(line, &ps) {
            Ok(t) => Instruction::JumpLink { rd: t.0, target: t.1 },
            Err(e) => Instruction::Invalid { cause: e },
        }
    } else if eq3(mn, 'b' as u8, 'n' as u8, 'e' as u8) {
        match p_brr(line, &ps) {
            Ok(t) => Instruction::Branch { cond: BranchCond::Ne, rs1: t.0, rs2: t.1, target: t.2 },
            Err(e) => Instruction::Invalid { cause: e },
        }
    } else if eq3(mn, 'b' as u8, 'e' as u8, 'q' as u8) {
        match p_brr(line, &ps) {
            Ok(t) => Instruction::Branch { cond: BranchCond::Eq, rs1: t.0, rs2: t.1, target: t.2 },
            Err(e) => Instruction::Invalid { cause: e },
        }
    } else if eq3(mn, 'b' as u8, 'l' as u8, 'e' as u8) {
        match p_brr(line, &ps) {
            Ok(t) => Instruction::Branch { cond: BranchCond::Le, rs1: t.0, rs2: t.1, target: t.2 },
            Err(e) => Instruction::Invalid { cause: e },
        }
    } else if eq3(mn, 'b' as u8, 'l' as u8, 't' as u8) {
        match p_brr(line, &ps) {
            Ok(t) => Instruction::Branch { cond: BranchCond::Lt, rs1: t.0, rs2: t.1, target: t.2 },
            Err(e) => Instruction::Invalid { cause: e },
        }
    } else if eq4(mn, 'b' as u8, 'n' as u8, 'e' as u8, 'z' as u8) {
        match p_brz(line, &ps) {
            Ok(t) => Instruction::BranchZero { cond: ZeroCond::Nez, rs: t.0, target: t.1 },
            Err(e) => Instruction::Invalid { cause: e },
        }
    } else if eq3(mn, 'b' as u8, 'g' as u8, 'e' as u8) {
        match p_brr(line, &ps) {
            Ok(t) => Instruction::Branch { cond: BranchCond::Ge, rs1: t.0, rs2: t.1, target: t.2 },
            Err(e) => Instruction::Invalid { cause: e },
        }
    } else if eq3(mn, 'b' as u8, 'g' as u8, 't' as u8) {
        match p_brr(line, &ps) {
            Ok(t) => Instruction::Branch { cond: BranchCond::Gt, rs1: t.0, rs2: t.1, target: t.2 },
            Err(e) => Instruction::Invalid { cause: e },
        }
    } else if eq4(mn, 'b' as u8, 'g' as u8, 't' as u8, 'z' as u8) {
        match p_brz(line, &ps) {
            Ok(t) => Instruction::BranchZero { cond: ZeroCond::Gtz, rs: t.0, target: t.1 },
            Err(e) => Instruction::Invalid { cause: e },
        }
    } else if eq4(mn, 'b' as u8, 'g' as u8, 'e' as u8, 'z' as u8) {
        match p_brz(line, &ps) {
            Ok(t) => Instruction::BranchZero { cond: ZeroCond::Gez, rs: t.0, target: t.1 },
            Err(e) => Instruction::Invalid { cause: e },
        }
    } else if eq4(mn, 'b' as u8, 'g' as u8, 't' as u8, 'u' as u8) {
        match p_brr(line, &ps) {
            Ok(t) => Instruction::Branch { cond: BranchCond::Gtu, rs1: t.0, rs2: t.1, target: t.2 },
            Err(e) => Instruction::Invalid { cause: e },
        }
    } else if eq4(mn, 'b' as u8, 'l' as u8, 't' as u8, 'u' as u8) {
        match p_brr(line, &ps) {
            Ok(t) => Instruction::Branch { cond: BranchCond::Ltu, rs1: t.0, rs2: t.1, target: t.2 },
            Err(e) => Instruction::Invalid { cause: e },
        }
    } else if eq3(mn, 'r' as u8, 'e' as u8, 't' as u8) {
        Instruction::Ret
    } else if eq4(mn, 's' as u8, 'l' as u8, 'l' as u8, 'i' as u8) || eq5(
        mn,
        's' as u8,
        'l' as u8,
        'l' as u8,
        'i' as u8,
        'w' as u8,
    ) {
        match p_rri(line, &ps, true) {
            Ok(t) => Instruction::AluImm { op: AluOp::Sll, rd: t.0, rs1: t.1, imm: t.2 },
            Err(e) => Instruction::Invalid { cause: e },
        }
    } else if eq4(mn, 's' as u8, 'r' as u8, 'l' as u8, 'i' as u8) || eq5(
        mn,
        's' as u8,
        'l' as u8,
        'r' as u8,
        'i' as u8,
        'w' as u8,
    ) {
        match p_rri(line, &ps, true) {
            Ok(t) => Instruction::AluImm { op: AluOp::Srl, rd: t.0, rs1: t.1, imm: t.2 },
            Err(e) => Instruction::Invalid { cause: e },
        }
    } else if eq5(mn, 's' as u8, 'r' as u8, 'a' as u8, 'i' as u8, 'w' as u8) {
        match p_rri(line, &ps, true) {
            Ok(t) => Instruction::AluImm { op: AluOp::Sra, rd: t.0, rs1: t.1, imm: t.2 },
            Err(e) => Instruction::Invalid { cause: e },
        }
    } else if eq2(mn, 'o' as u8, 'r' as u8) {
        match p_rrr(line, &ps) {
            Ok(t) => Instruction::Alu { op: AluOp::Or, rd: t.0, rs1: t.1, rs2: t.2 },
            Err(e) => Instruction::Invalid { cause: e },
        }
    } else if eq3(mn, 'o' as u8, 'r' as u8, 'i' as u8) {
        match p_rri(line, &ps, true) {
            Ok(t) => Instruction::AluImm { op: AluOp::Or, rd: t.0, rs1: t.1, imm: t.2 },
            Err(e) => Instruction::Invalid { cause: e },
        }
    } else if eq3(mn, 'a' as u8, 'n' as u8, 'd' as u8) {
        match p_rrr(line, &ps) {
            Ok(t) => Instruction::Alu { op: AluOp::And, rd: t.0, rs1: t.1, rs2: t.2 },
            Err(e) => Instruction::Invalid { cause: e },
        }
    } else if eq4(mn, 'a' as u8, 'n' as u8, 'd' as u8, 'i' as u8) {
        match p_rri(line, &ps, true) {
            Ok(t) => Instruction::AluImm { op: AluOp::And, rd: t.0, rs1: t.1, imm: t.2 },
            Err(e) => Instruction::Invalid { cause: e },
        }
    } else if eq4(mn, 'r' as u8, 'e' as u8, 'm' as u8, 'w' as u8) {
        match p_rrr(line, &ps) {
            Ok(t) => Instruction::Alu { op: AluOp::Rem, rd: t.0, rs1: t.1, rs2: t.2 },
            Err(e) => Instruction::Invalid { cause: e },
        }
    } else if eq6(mn, 's' as u8, 'e' as u8, 'x' as u8, 't' as u8, '.' as u8, 'w' as u8) {
        match p_rr(line, &ps) {
            Ok(t) => Instruction::SextW { rd: t.0, rs: t.1 },
            Err(e) => Instruction::Invalid { cause: e },
        }
    } else if eq5(mn, 'e' as u8, 'c' as u8, 'a' as u8, 'l' as u8, 'l' as u8) {
        Instruction::Ecall
    } else {
        Instruction::Invalid { cause: VmError::UnknownInstruction(mn_v.clone()) }
    };
    r
}

} // verus!

