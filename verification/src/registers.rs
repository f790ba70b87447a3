//! The register bank: a fixed set of named signed 64-bit registers held in
//! an array indexed by a register number, with name-to-number translation at
//! the parsing boundary.

use vstd::prelude::*;

verus! {

/// How many registers exist: `zero, ra, sp, eip, t0-t6, s0-s11, a0-a7`.
pub const NUM_REGS: usize = 31;

/// Index of `zero`, by convention always 0.
pub const REG_ZERO: usize = 0;

/// Index of `ra`, the return address.
pub const REG_RA: usize = 1;

/// Index of `sp`, the stack pointer.
pub const REG_SP: usize = 2;

/// Index of `eip`, the program counter: a zero-based index into the
/// resolved instruction sequence.
pub const REG_EIP: usize = 3;

/// Index of `a0`, the first syscall argument and return register.
pub const REG_A0: usize = 23;

/// Index of `a1`, the second syscall argument.
pub const REG_A1: usize = 24;

/// Index of `a2`, the third syscall argument.
pub const REG_A2: usize = 25;

/// Index of `a7`, the syscall selector.
pub const REG_A7: usize = 30;

/// The sentinel written into every register but `zero` at creation, standing
/// in for the arbitrary bit pattern a real core holds at reset. Programs
/// that rely on zero-initialized registers read this value and misbehave
/// loudly instead of silently working.
pub const POISON: i64 = 0x5bad5bad5bad5bad;

/// The register number a name denotes, if any.
///
/// Layout: `zero` 0, `ra` 1, `sp` 2, `eip` 3, `t0`-`t6` 4-10, `s0`-`s11`
/// 11-22, `a0`-`a7` 23-30.
pub open spec fn spec_register_index(s: Seq<u8>) -> Option<usize> {
    if s.len() == 4 && s[0] == 122 && s[1] == 101 && s[2] == 114 && s[3] == 111 {
        Some(REG_ZERO)
    } else if s.len() == 2 && s[0] == 114 && s[1] == 97 {
        Some(REG_RA)
    } else if s.len() == 2 && s[0] == 115 && s[1] == 112 {
        Some(REG_SP)
    } else if s.len() == 3 && s[0] == 101 && s[1] == 105 && s[2] == 112 {
        Some(REG_EIP)
    } else if s.len() == 2 && s[0] == 116 && 48 <= s[1] <= 54 {
        Some((4 + (s[1] - 48)) as usize)
    } else if s.len() == 2 && s[0] == 115 && 48 <= s[1] <= 57 {
        Some((11 + (s[1] - 48)) as usize)
    } else if s.len() == 3 && s[0] == 115 && s[1] == 49 && 48 <= s[2] <= 49 {
        Some((21 + (s[2] - 48)) as usize)
    } else if s.len() == 2 && s[0] == 97 && 48 <= s[1] <= 55 {
        Some((23 + (s[1] - 48)) as usize)
    } else {
        None
    }
}

/// Translates a register name to its number.
pub fn register_index(name: &[u8]) -> (r: Option<usize>)
    ensures
        r == spec_register_index(name@),
        r matches Some(i) ==> i < NUM_REGS,
{
    if name.len() == 4 && name[0] == 'z' as u8 && name[1] == 'e' as u8 && name[2] == 'r' as u8
        && name[3] == 'o' as u8 {
        Some(REG_ZERO)
    } else if name.len() == 2 && name[0] == 'r' as u8 && name[1] == 'a' as u8 {
        Some(REG_RA)
    } else if name.len() == 2 && name[0] == 's' as u8 && name[1] == 'p' as u8 {
        Some(REG_SP)
    } else if name.len() == 3 && name[0] == 'e' as u8 && name[1] == 'i' as u8 && name[2]
        == 'p' as u8 {
        Some(REG_EIP)
    } else if name.len() == 2 && name[0] == 't' as u8 && 48 <= name[1] && name[1] <= 54 {
        Some(4 + (name[1] - 48) as usize)
    } else if name.len() == 2 && name[0] == 's' as u8 && 48 <= name[1] && name[1] <= 57 {
        Some(11 + (name[1] - 48) as usize)
    } else if name.len() == 3 && name[0] == 's' as u8 && name[1] == '1' as u8 && 48 <= name[2]
        && name[2] <= 49 {
        Some(21 + (name[2] - 48) as usize)
    } else if name.len() == 2 && name[0] == 'a' as u8 && 48 <= name[1] && name[1] <= 55 {
        Some(23 + (name[1] - 48) as usize)
    } else {
        None
    }
}

/// The register values every fresh bank holds: `zero` is 0, everything else
/// is the poison sentinel.
pub open spec fn initial_regs() -> Seq<i64> {
    Seq::new(NUM_REGS as nat, |i: int| if i == 0 { 0i64 } else { POISON })
}

/// The register bank itself. Viewed as a sequence of `NUM_REGS` values.
pub struct Registers {
    values: Vec<i64>,
}

impl View for Registers {
    type V = Seq<i64>;

    closed spec fn view(&self) -> Seq<i64> {
        self.values@
    }
}

impl Registers {
    /// A bank is well formed when it holds exactly one value per register.
    pub open spec fn wf(self) -> bool {
        self@.len() == NUM_REGS
    }

    /// A fresh bank: `zero` holds 0, every other register the poison value.
    pub fn new() -> (r: Registers)
        ensures
            r.wf(),
            r@ == initial_regs(),
    {
        let mut values: Vec<i64> = Vec::new();
        values.push(0);
        let mut i: usize = 1;
        while i < NUM_REGS
            invariant
                1 <= i <= NUM_REGS,
                values@.len() == i,
                values@[0] == 0i64,
                forall|k: int| 1 <= k < i ==> values@[k] == POISON,
            decreases NUM_REGS - i,
        {
            values.push(POISON);
            i += 1;
        }
        let r = Registers { values };
        proof {
            assert(r@ =~= initial_regs());
        }
        r
    }

    /// Is `register` the name of a register?
    pub fn has_register(&self, register: &[u8]) -> (r: bool)
        ensures
            r == (spec_register_index(register@) is Some),
    {
        register_index(register).is_some()
    }

    /// The value a register holds.
    pub fn read(&self, r: usize) -> (v: i64)
        requires
            self.wf(),
            r < NUM_REGS,
        ensures
            v == self@[r as int],
    {
        self.values[r]
    }

    /// Overwrites one register.
    pub fn write(&mut self, r: usize, v: i64)
        requires
            old(self).wf(),
            r < NUM_REGS,
        ensures
            final(self).wf(),
            final(self)@ == old(self)@.update(r as int, v),
    {
        self.values[r] = v;
    }

    /// The value of a named register, or which name was unknown.
    pub fn get(&self, name: &[u8]) -> (r: Result<i64, crate::error::VmError>)
        requires
            self.wf(),
        ensures
            match spec_register_index(name@) {
                Some(i) => r == Ok::<i64, crate::error::VmError>(self@[i as int]),
                None => r matches Err(e) && e matches crate::error::VmError::UnknownRegister(t)
                    && t@ == name@,
            },
    {
        match register_index(name) {
            Some(i) => Ok(self.values[i]),
            None => Err(crate::error::VmError::UnknownRegister(
                vstd::slice::slice_to_vec(name),
            )),
        }
    }

    /// Overwrites a named register, or reports which name was unknown.
    pub fn set(&mut self, name: &[u8], v: i64) -> (r: Result<(), crate::error::VmError>)
        requires
            old(self).wf(),
        ensures
            final(self).wf(),
            match spec_register_index(name@) {
                Some(i) => r == Ok::<(), crate::error::VmError>(()) && final(self)@ == old(
                    self,
                )@.update(i as int, v),
                None => (r matches Err(e) && e matches crate::error::VmError::UnknownRegister(t)
                    && t@ == name@) && final(self)@ == old(self)@,
            },
    {
        match register_index(name) {
            Some(i) => {
                self.values[i] = v;
                Ok(())
            },
            None => Err(crate::error::VmError::UnknownRegister(
                vstd::slice::slice_to_vec(name),
            )),
        }
    }
}

} // verus!
