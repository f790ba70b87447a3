//! The error taxonomy shared by the assembler, the memory, and the evaluator.

use vstd::prelude::*;

verus! {

/// Everything that can go wrong while assembling or executing a program.
///
/// Each variant carries enough context to diagnose the fault: the offending
/// operand or label text, the faulting address, or the rejected syscall
/// number.
#[derive(Debug, Clone, PartialEq, Eq)]
pub enum VmError {
    /// An operand could not be parsed: a bad address mode, a bad numeric
    /// literal, or a malformed directive. Carries the offending text.
    MalformedOperand(Vec<u8>),
    /// A symbolic jump target was still unresolved when the instruction
    /// needed it. Carries the label text.
    UnresolvedLabel(Vec<u8>),
    /// An address fell outside both memory segments. Carries the address.
    OutOfBounds(i64),
    /// A range access started in one segment and ended in the other.
    /// Carries the first and last touched address.
    CrossSegment(i64, i64),
    /// The mnemonic is not part of the instruction set. Carries the text.
    UnknownInstruction(Vec<u8>),
    /// The value in `a7` selects no supported syscall. Carries the value.
    UnsupportedSyscall(i64),
    /// An address mode resolved below zero. Carries the resolved address.
    NegativeAddress(i64),
    /// A register operand names no register. Carries the text.
    UnknownRegister(Vec<u8>),
    /// A `divw` or `remw` with a zero divisor.
    DivisionByZero,
    /// A `divw` whose exact quotient does not fit in 64 bits.
    ArithmeticOverflow,
}

/// The mathematical model of an error: the same taxonomy with text carried
/// as byte sequences, so that specifications can state exactly which error
/// a function returns.
pub ghost enum ErrView {
    MalformedOperand(Seq<u8>),
    UnresolvedLabel(Seq<u8>),
    OutOfBounds(i64),
    CrossSegment(i64, i64),
    UnknownInstruction(Seq<u8>),
    UnsupportedSyscall(i64),
    NegativeAddress(i64),
    UnknownRegister(Seq<u8>),
    DivisionByZero,
    ArithmeticOverflow,
}

impl VmError {
    /// An exact copy; unlike the derived `Clone`, its contract says so.
    pub fn duplicate(&self) -> (r: VmError)
        ensures
            r@ == self@,
    {
        match self {
            VmError::MalformedOperand(t) => VmError::MalformedOperand(t.clone()),
            VmError::UnresolvedLabel(t) => VmError::UnresolvedLabel(t.clone()),
            VmError::OutOfBounds(a) => VmError::OutOfBounds(*a),
            VmError::CrossSegment(a, b) => VmError::CrossSegment(*a, *b),
            VmError::UnknownInstruction(t) => VmError::UnknownInstruction(t.clone()),
            VmError::UnsupportedSyscall(n) => VmError::UnsupportedSyscall(*n),
            VmError::NegativeAddress(a) => VmError::NegativeAddress(*a),
            VmError::UnknownRegister(t) => VmError::UnknownRegister(t.clone()),
            VmError::DivisionByZero => VmError::DivisionByZero,
            VmError::ArithmeticOverflow => VmError::ArithmeticOverflow,
        }
    }
}

impl View for VmError {
    type V = ErrView;

    open spec fn view(&self) -> ErrView {
        match self {
            VmError::MalformedOperand(t) => ErrView::MalformedOperand(t@),
            VmError::UnresolvedLabel(t) => ErrView::UnresolvedLabel(t@),
            VmError::OutOfBounds(a) => ErrView::OutOfBounds(*a),
            VmError::CrossSegment(a, b) => ErrView::CrossSegment(*a, *b),
            VmError::UnknownInstruction(t) => ErrView::UnknownInstruction(t@),
            VmError::UnsupportedSyscall(n) => ErrView::UnsupportedSyscall(*n),
            VmError::NegativeAddress(a) => ErrView::NegativeAddress(*a),
            VmError::UnknownRegister(t) => ErrView::UnknownRegister(t@),
            VmError::DivisionByZero => ErrView::DivisionByZero,
            VmError::ArithmeticOverflow => ErrView::ArithmeticOverflow,
        }
    }
}

} // verus!
