//! The segmented virtual memory: a heap segment at low addresses grown by a
//! break pointer, and a fixed stack segment occupying the top of the address
//! space. Byte-addressed, little-endian, with bounds and segment checks on
//! every access.

use crate::error::VmError;
use vstd::prelude::*;

verus! {

// ---------------------------------------------------------------------------
// Little-endian values
// ---------------------------------------------------------------------------

/// 256 to the power `n`.
pub open spec fn pow256(n: nat) -> nat
    decreases n,
{
    if n == 0 {
        1
    } else {
        256 * pow256((n - 1) as nat)
    }
}

pub proof fn lemma_pow256_pos(n: nat)
    ensures
        pow256(n) >= 1,
    decreases n,
{
    if n > 0 {
        lemma_pow256_pos((n - 1) as nat);
    }
}

pub proof fn lemma_pow256_values()
    ensures
        pow256(0) == 1,
        pow256(1) == 0x100,
        pow256(2) == 0x1_0000,
        pow256(3) == 0x100_0000,
        pow256(4) == 0x1_0000_0000,
        pow256(5) == 0x100_0000_0000,
        pow256(6) == 0x1_0000_0000_0000,
        pow256(7) == 0x100_0000_0000_0000,
        pow256(8) == 0x1_0000_0000_0000_0000,
{
    reveal_with_fuel(pow256, 9);
}

/// The value of a byte sequence read as a little-endian number.
pub open spec fn le_value(s: Seq<u8>) -> nat
    decreases s.len(),
{
    if s.len() == 0 {
        0
    } else {
        s[0] as nat + 256 * le_value(s.drop_first())
    }
}

pub proof fn lemma_le_value_bound(s: Seq<u8>)
    ensures
        le_value(s) < pow256(s.len()),
    decreases s.len(),
{
    if s.len() == 0 {
    } else {
        lemma_le_value_bound(s.drop_first());
    }
}

/// Byte `i` (counting from the least significant) of a number.
pub open spec fn nth_byte(v: nat, i: nat) -> u8 {
    ((v / pow256(i)) % 256) as u8
}

/// The low `n` bytes of a number, least significant first.
pub open spec fn le_bytes_of(v: nat, n: nat) -> Seq<u8> {
    Seq::new(n, |i: int| nth_byte(v, i as nat))
}

/// Reading back the little-endian encoding of `v` on `n` bytes recovers
/// exactly the low `n` bytes of `v`. This is the arithmetic core of the
/// store/load round trip: `Memory::store_to` writes `le_bytes_of(v, n)` and
/// `Memory::load_bytes` returns the `le_value` of the touched bytes.
pub proof fn lemma_le_round_trip(v: nat, n: nat)
    ensures
        le_value(le_bytes_of(v, n)) == v % pow256(n),
    decreases n,
{
    if n == 0 {
        assert(v % 1 == 0) by (nonlinear_arith);
    } else {
        let rest = le_bytes_of(v / 256, (n - 1) as nat);
        assert(le_bytes_of(v, n).drop_first() =~= rest) by {
            assert forall|i: int| 0 <= i < n - 1 implies le_bytes_of(v, n).drop_first()[i]
                == rest[i] by {
                lemma_pow256_pos(i as nat);
                vstd::arithmetic::div_mod::lemma_div_denominator(
                    v as int,
                    256,
                    pow256(i as nat) as int,
                );
            }
        }
        lemma_le_round_trip(v / 256, (n - 1) as nat);
        lemma_pow256_pos((n - 1) as nat);
        vstd::arithmetic::div_mod::lemma_mod_breakdown(
            v as int,
            256,
            pow256((n - 1) as nat) as int,
        );
        assert(le_bytes_of(v, n)[0] == nth_byte(v, 0));
        assert(pow256(0) == 1);
        assert(v / 1 == v) by (nonlinear_arith);
    }
}

// ---------------------------------------------------------------------------
// The memory model
// ---------------------------------------------------------------------------

/// The mathematical model of the memory: the heap bytes, the stack bytes,
/// and the size of the whole address space.
#[verifier::ext_equal]
pub ghost struct MemView {
    pub heap: Seq<u8>,
    pub stack: Seq<u8>,
    pub total: int,
}

impl MemView {
    pub open spec fn wf(self) -> bool {
        &&& self.stack.len() <= self.total
        &&& self.heap.len() <= self.total
        &&& self.total + 8 <= i64::MAX
    }

    /// The lowest stack address. Everything at or above it classifies as
    /// stack; everything below as heap.
    pub open spec fn stack_base(self) -> int {
        self.total - self.stack.len()
    }

    pub open spec fn is_stack(self, a: int) -> bool {
        a >= self.stack_base()
    }

    /// Is `a` backed by a byte in its segment? Total over all addresses:
    /// negative addresses and addresses at or beyond `total` are invalid,
    /// heap addresses are valid below the current break only.
    pub open spec fn valid(self, a: int) -> bool {
        if self.is_stack(a) {
            a < self.total
        } else {
            0 <= a < self.heap.len()
        }
    }

    pub open spec fn byte_at(self, a: int) -> u8 {
        if self.is_stack(a) {
            self.stack[a - self.stack_base()]
        } else {
            self.heap[a]
        }
    }

    /// The `n` bytes starting at `a`.
    pub open spec fn bytes_at(self, a: int, n: nat) -> Seq<u8> {
        Seq::new(n, |i: int| self.byte_at(a + i))
    }

    /// Why an `n`-byte access at `addr` fails, if it does: `OutOfBounds`
    /// when an end of the range is backed by no segment, `CrossSegment`
    /// when the two ends fall in different segments.
    pub open spec fn range_err(self, addr: i64, n: nat) -> Option<VmError> {
        let last = addr + n - 1;
        if !self.valid(addr as int) {
            Some(VmError::OutOfBounds(addr))
        } else if !self.valid(last) {
            Some(VmError::OutOfBounds(last as i64))
        } else if self.is_stack(addr as int) != self.is_stack(last) {
            Some(VmError::CrossSegment(addr, last as i64))
        } else {
            None
        }
    }

    /// The memory with `bs` written at `addr`; addresses outside both
    /// segments are unaffected.
    pub open spec fn write_bytes(self, addr: int, bs: Seq<u8>) -> MemView {
        MemView {
            heap: Seq::new(
                self.heap.len(),
                |j: int|
                    if !self.is_stack(j) && addr <= j < addr + bs.len() {
                        bs[j - addr]
                    } else {
                        self.heap[j]
                    },
            ),
            stack: Seq::new(
                self.stack.len(),
                |j: int|
                    if addr <= j + self.stack_base() < addr + bs.len() {
                        bs[j + self.stack_base() - addr]
                    } else {
                        self.stack[j]
                    },
            ),
            total: self.total,
        }
    }

    /// The memory with the program break moved to `n`: the heap's backing
    /// store is resized to `n` bytes but never beyond the address space
    /// (an address at or beyond `total` classifies as stack or invalid
    /// whatever the break, so bytes there would be unreachable); new bytes
    /// are zero, shrinking discards.
    pub open spec fn with_break(self, n: int) -> MemView {
        let backing = if n <= self.total {
            n
        } else {
            self.total
        };
        MemView {
            heap: Seq::new(
                backing as nat,
                |i: int|
                    if i < self.heap.len() {
                        self.heap[i]
                    } else {
                        0u8
                    },
            ),
            stack: self.stack,
            total: self.total,
        }
    }
}

/// When the range check passes, every touched address is valid and lies in
/// the same segment as the first.
pub proof fn lemma_range_valid(m: MemView, addr: i64, n: nat)
    requires
        m.wf(),
        n >= 1,
        m.range_err(addr, n) is None,
    ensures
        forall|i: int|
            0 <= i < n ==> #[trigger] m.valid(addr + i) && m.is_stack(addr + i) == m.is_stack(
                addr as int,
            ),
{
    let last = addr + n - 1;
    assert forall|i: int| 0 <= i < n implies #[trigger] m.valid(addr + i) && m.is_stack(addr + i)
        == m.is_stack(addr as int) by {
        if m.is_stack(addr as int) {
            assert(addr + i >= m.stack_base());
            assert(addr + i <= last < m.total);
        } else {
            assert(last < m.stack_base());
            assert(addr + i <= last);
            assert(0 <= addr);
        }
    }
}

/// What `write_bytes` does to each byte: the written range takes the new
/// bytes, every other valid address keeps its old byte, and the shape of
/// the memory is unchanged.
pub proof fn lemma_write_bytes_byte_at(m: MemView, addr: int, bs: Seq<u8>)
    requires
        m.wf(),
    ensures
        m.write_bytes(addr, bs).wf(),
        m.write_bytes(addr, bs).stack_base() == m.stack_base(),
        m.write_bytes(addr, bs).heap.len() == m.heap.len(),
        m.write_bytes(addr, bs).stack.len() == m.stack.len(),
        m.write_bytes(addr, bs).total == m.total,
        forall|a: int| #[trigger] m.write_bytes(addr, bs).valid(a) == m.valid(a),
        forall|a: int|
            m.valid(a) && addr <= a < addr + bs.len() ==> #[trigger] m.write_bytes(
                addr,
                bs,
            ).byte_at(a) == bs[a - addr],
        forall|a: int|
            m.valid(a) && !(addr <= a < addr + bs.len()) ==> #[trigger] m.write_bytes(
                addr,
                bs,
            ).byte_at(a) == m.byte_at(a),
{
    let w = m.write_bytes(addr, bs);
    assert forall|a: int| m.valid(a) && addr <= a < addr + bs.len() implies #[trigger] w.byte_at(a)
        == bs[a - addr] by {
        if m.is_stack(a) {
            assert(w.stack[a - m.stack_base()] == bs[a - addr]);
        } else {
            assert(w.heap[a] == bs[a - addr]);
        }
    }
    assert forall|a: int| m.valid(a) && !(addr <= a < addr + bs.len()) implies #[trigger] w.byte_at(
        a,
    ) == m.byte_at(a) by {
        if m.is_stack(a) {
            assert(w.stack[a - m.stack_base()] == m.stack[a - m.stack_base()]);
        } else {
            assert(w.heap[a] == m.heap[a]);
        }
    }
}

// ---------------------------------------------------------------------------
// Laws: bounds and segmentation
// ---------------------------------------------------------------------------

/// Every load or store whose address is negative or at or beyond the total
/// size fails with `OutOfBounds`: such an address is valid in neither
/// segment, so `range_err` reports it, and the load/store contracts return
/// exactly that error.
pub proof fn lemma_out_of_bounds(m: MemView, addr: i64, n: nat)
    requires
        m.wf(),
        n >= 1,
        addr < 0 || addr >= m.total,
    ensures
        m.range_err(addr, n) == Some(VmError::OutOfBounds(addr)),
{
    assert(!m.valid(addr as int));
}

/// More generally, every load or store whose range pokes outside the
/// address space on either side fails with `OutOfBounds`: the range check
/// reports the out-of-space end, and the load/store contracts return
/// exactly the reported error with the memory unchanged.
pub proof fn lemma_out_of_bounds_range(m: MemView, addr: i64, n: nat)
    requires
        m.wf(),
        n >= 1,
        addr < 0 || addr + n > m.total,
    ensures
        m.range_err(addr, n) matches Some(e) && e matches VmError::OutOfBounds(_),
{
    if !m.valid(addr as int) {
    } else {
        assert(0 <= addr < m.total);
        assert(addr + n - 1 >= m.total);
        assert(m.is_stack(addr + n - 1));
        assert(!m.valid(addr + n - 1));
    }
}

/// A range access that starts in the heap segment and ends in the stack
/// segment fails with `CrossSegment`, whatever lies in between.
pub proof fn lemma_cross_segment(m: MemView, addr: i64, n: nat)
    requires
        m.wf(),
        n >= 1,
        m.valid(addr as int),
        !m.is_stack(addr as int),
        m.valid(addr + n - 1),
        m.is_stack(addr + n - 1),
    ensures
        m.range_err(addr, n) == Some(VmError::CrossSegment(addr, (addr + n - 1) as i64)),
{
}

/// The full store/load round trip over the memory model: after writing the
/// little-endian encoding of `v` on `n` bytes, reading those `n` bytes back
/// yields `v`'s low `n` bytes.
pub proof fn lemma_store_load_round_trip(m: MemView, addr: i64, v: nat, n: nat)
    requires
        m.wf(),
        1 <= n <= 8,
        m.range_err(addr, n) is None,
    ensures
        le_value(m.write_bytes(addr as int, le_bytes_of(v, n)).bytes_at(addr as int, n)) == v
            % pow256(n),
{
    let w = m.write_bytes(addr as int, le_bytes_of(v, n));
    lemma_range_valid(m, addr, n);
    lemma_write_bytes_byte_at(m, addr as int, le_bytes_of(v, n));
    assert(w.bytes_at(addr as int, n) =~= le_bytes_of(v, n));
    lemma_le_round_trip(v, n);
}

// ---------------------------------------------------------------------------
// The memory itself
// ---------------------------------------------------------------------------

/// The virtual memory. The data segment the assembler fills lives in the
/// top of the stack segment; at run time it is ordinary memory.
pub struct Memory {
    pub stack_memory: Vec<u8>,
    pub program_break: usize,
    pub heap_memory: Vec<u8>,
    pub virtual_memory_size: usize,
}

impl View for Memory {
    type V = MemView;

    open spec fn view(&self) -> MemView {
        MemView {
            heap: self.heap_memory@,
            stack: self.stack_memory@,
            total: self.virtual_memory_size as int,
        }
    }
}

impl Memory {
    pub open spec fn wf(self) -> bool {
        self@.wf() && self.heap_memory@.len() == (if self.program_break as int <= self@.total {
            self.program_break as int
        } else {
            self@.total
        })
    }

    /// A fresh memory: 4096 bytes of address space, the top 2048 of them
    /// the stack segment, all stack bytes zero, and an empty heap.
    pub fn new() -> (r: Memory)
        ensures
            r.wf(),
            r@.total == 4096,
            r@.stack =~= Seq::new(2048nat, |i: int| 0u8),
            r@.heap =~= Seq::<u8>::empty(),
            r.program_break == 0,
    {
        Memory::with_sizes(4096, 2048)
    }

    /// A fresh memory of a chosen geometry: `total_size` bytes of address
    /// space whose top `stack_size` bytes are the stack segment.
    pub fn with_sizes(total_size: usize, stack_size: usize) -> (r: Memory)
        requires
            stack_size <= total_size,
            total_size + 8 <= i64::MAX,
        ensures
            r.wf(),
            r@.total == total_size,
            r@.stack =~= Seq::new(stack_size as nat, |i: int| 0u8),
            r@.heap =~= Seq::<u8>::empty(),
            r.program_break == 0,
    {
        let mut stack: Vec<u8> = Vec::new();
        let mut i: usize = 0;
        while i < stack_size
            invariant
                i <= stack_size,
                stack@.len() == i,
                forall|k: int| 0 <= k < i ==> stack@[k] == 0u8,
            decreases stack_size - i,
        {
            stack.push(0);
            i += 1;
        }
        let r = Memory {
            stack_memory: stack,
            program_break: 0,
            heap_memory: Vec::new(),
            virtual_memory_size: total_size,
        };
        proof {
            assert(r@.stack =~= Seq::new(stack_size as nat, |k: int| 0u8));
        }
        r
    }

    /// Does `address` classify as a stack address? Pure classification by
    /// magnitude; says nothing about validity.
    pub fn is_stack_address(&self, address: i64) -> (r: bool)
        requires
            self.wf(),
        ensures
            r == self@.is_stack(address as int),
    {
        let base = self.virtual_memory_size - self.stack_memory.len();
        address >= base as i64
    }

    /// The index of a valid address inside its segment's buffer.
    pub fn address_to_index(&self, address: i64) -> (r: usize)
        requires
            self.wf(),
            self@.valid(address as int),
        ensures
            r == if self@.is_stack(address as int) {
                address - self@.stack_base()
            } else {
                address as int
            },
    {
        if self.is_stack_address(address) {
            let base = self.virtual_memory_size - self.stack_memory.len();
            (address as usize) - base
        } else {
            address as usize
        }
    }

    /// Is `address` backed by a byte in either segment? Total over the full
    /// `i64` range.
    pub fn is_address_valid(&self, address: i64) -> (r: bool)
        requires
            self.wf(),
        ensures
            r == self@.valid(address as int),
    {
        if self.is_stack_address(address) {
            address < self.virtual_memory_size as i64
        } else {
            0 <= address && address < self.heap_memory.len() as i64
        }
    }

    /// Reads one byte, reporting an invalid address.
    pub fn read_byte(&self, address: i64) -> (r: Result<u8, VmError>)
        requires
            self.wf(),
        ensures
            self@.valid(address as int) ==> r == Ok::<u8, VmError>(self@.byte_at(address as int)),
            !self@.valid(address as int) ==> r == Err::<u8, VmError>(VmError::OutOfBounds(address)),
    {
        if !self.is_address_valid(address) {
            return Err(VmError::OutOfBounds(address));
        }
        let idx = self.address_to_index(address);
        if self.is_stack_address(address) {
            Ok(self.stack_memory[idx])
        } else {
            Ok(self.heap_memory[idx])
        }
    }

    /// Writes one byte at an address already known to be valid.
    pub(crate) fn put_byte(&mut self, address: i64, value: u8)
        requires
            old(self).wf(),
            old(self)@.valid(address as int),
        ensures
            final(self).wf(),
            final(self)@ == old(self)@.write_bytes(address as int, seq![value]),
            final(self).program_break == old(self).program_break,
    {
        let idx = self.address_to_index(address);
        if self.is_stack_address(address) {
            self.stack_memory[idx] = value;
        } else {
            self.heap_memory[idx] = value;
        }
        proof {
            assert(self@.heap =~= old(self)@.write_bytes(address as int, seq![value]).heap);
            assert(self@.stack =~= old(self)@.write_bytes(address as int, seq![value]).stack);
            assert(self@ =~= old(self)@.write_bytes(address as int, seq![value]));
        }
    }

    /// Writes one byte, reporting an invalid address.
    pub fn write_byte(&mut self, address: i64, value: u8) -> (r: Result<(), VmError>)
        requires
            old(self).wf(),
        ensures
            final(self).wf(),
            final(self).program_break == old(self).program_break,
            old(self)@.valid(address as int) ==> r == Ok::<(), VmError>(()) && final(self)@ == old(
                self,
            )@.write_bytes(address as int, seq![value]),
            !old(self)@.valid(address as int) ==> r == Err::<(), VmError>(
                VmError::OutOfBounds(address),
            ) && final(self)@ == old(self)@,
    {
        if !self.is_address_valid(address) {
            return Err(VmError::OutOfBounds(address));
        }
        self.put_byte(address, value);
        Ok(())
    }

    /// Loads `count` bytes at `address` as a little-endian unsigned value,
    /// enforcing the bounds and segment rules.
    pub fn load_bytes(&self, address: i64, count: usize) -> (r: Result<u64, VmError>)
        requires
            self.wf(),
            1 <= count <= 8,
        ensures
            match self@.range_err(address, count as nat) {
                Some(e) => r == Err::<u64, VmError>(e),
                None => r matches Ok(v) && v as nat == le_value(
                    self@.bytes_at(address as int, count as nat),
                ),
            },
    {
        if !self.is_address_valid(address) {
            return Err(VmError::OutOfBounds(address));
        }
        let last = address + (count as i64 - 1);
        if !self.is_address_valid(last) {
            return Err(VmError::OutOfBounds(last));
        }
        if self.is_stack_address(address) != self.is_stack_address(last) {
            return Err(VmError::CrossSegment(address, last));
        }
        proof {
            lemma_range_valid(self@, address, count as nat);
            lemma_pow256_values();
        }
        let mut acc: u64 = 0;
        let mut j: usize = count;
        while j > 0
            invariant
                self.wf(),
                1 <= count <= 8,
                j <= count,
                self@.range_err(address, count as nat) is None,
                0 <= address,
                address + count <= self@.total,
                acc as nat == le_value(self@.bytes_at(address + j, (count - j) as nat)),
                acc < pow256((count - j) as nat),
            decreases j,
        {
            let a = address + (j as i64 - 1);
            proof {
                lemma_range_valid(self@, address, count as nat);
                assert(self@.valid(a as int));
                lemma_pow256_values();
                let tail = self@.bytes_at(address + j, (count - j) as nat);
                let whole = self@.bytes_at(address + j - 1, (count - j + 1) as nat);
                assert(whole.drop_first() =~= tail);
                assert(whole[0] == self@.byte_at(a as int));
                lemma_le_value_bound(whole);
            }
            let b = match self.read_byte(a) {
                Ok(b) => b,
                Err(_) => {
                    proof {
                        assert(false);
                    }
                    0
                },
            };
            acc = b as u64 + 256 * acc;
            j -= 1;
        }
        Ok(acc)
    }

    /// Loads eight bytes at `address` as a signed 64-bit value.
    pub fn load_from(&self, address: i64) -> (r: Result<i64, VmError>)
        requires
            self.wf(),
        ensures
            match self@.range_err(address, 8) {
                Some(e) => r == Err::<i64, VmError>(e),
                None => r matches Ok(v) && v as u64 as nat == le_value(
                    self@.bytes_at(address as int, 8),
                ),
            },
    {
        match self.load_bytes(address, 8) {
            Ok(v) => {
                proof {
                    assert(v as i64 as u64 == v) by (bit_vector);
                }
                Ok(v as i64)
            },
            Err(e) => Err(e),
        }
    }

    /// Stores the low `byte_count` little-endian bytes of `value` at
    /// `address`, enforcing the bounds and segment rules; on error the
    /// memory is unchanged.
    pub fn store_to(&mut self, address: i64, value: i64, byte_count: usize) -> (r: Result<
        (),
        VmError,
    >)
        requires
            old(self).wf(),
            1 <= byte_count <= 8,
        ensures
            final(self).wf(),
            final(self).program_break == old(self).program_break,
            match old(self)@.range_err(address, byte_count as nat) {
                Some(e) => r == Err::<(), VmError>(e) && final(self)@ == old(self)@,
                None => r == Ok::<(), VmError>(()) && final(self)@ == old(self)@.write_bytes(
                    address as int,
                    le_bytes_of(value as u64 as nat, byte_count as nat),
                ),
            },
    {
        if !self.is_address_valid(address) {
            return Err(VmError::OutOfBounds(address));
        }
        let last = address + (byte_count as i64 - 1);
        if !self.is_address_valid(last) {
            return Err(VmError::OutOfBounds(last));
        }
        if self.is_stack_address(address) != self.is_stack_address(last) {
            return Err(VmError::CrossSegment(address, last));
        }
        proof {
            lemma_range_valid(old(self)@, address, byte_count as nat);
        }
        let ghost m0 = self@;
        let ghost bytes = le_bytes_of(value as u64 as nat, byte_count as nat);
        let v = value as u64;
        let mut i: usize = 0;
        proof {
            assert(self@ =~= m0.write_bytes(address as int, bytes.take(0)));
        }
        while i < byte_count
            invariant
                self.wf(),
                self.program_break == old(self).program_break,
                1 <= byte_count <= 8,
                i <= byte_count,
                v == value as u64,
                m0.wf(),
                bytes == le_bytes_of(value as u64 as nat, byte_count as nat),
                m0.range_err(address, byte_count as nat) is None,
                self@ == m0.write_bytes(address as int, bytes.take(i as int)),
            decreases byte_count - i,
        {
            let b = byte_of_value(v, i);
            proof {
                lemma_range_valid(m0, address, byte_count as nat);
                lemma_write_bytes_byte_at(m0, address as int, bytes.take(i as int));
                assert(self@.valid(address + i));
            }
            let a = address + i as i64;
            let ghost before = self@;
            self.put_byte(a, b);
            proof {
                let after_target = m0.write_bytes(address as int, bytes.take(i as int + 1));
                assert(self@.heap =~= after_target.heap);
                assert(self@.stack =~= after_target.stack);
                assert(self@ =~= after_target);
            }
            i += 1;
        }
        proof {
            assert(bytes.take(byte_count as int) =~= bytes);
        }
        Ok(())
    }

    /// Moves the program break to `new_break` and resizes the heap's
    /// backing store accordingly, zero-filling any new bytes; the store is
    /// clamped at the address-space size, where bytes would be unreachable
    /// anyway. Fails with `OutOfBounds` only for a negative break, or one
    /// the break register cannot hold; the memory is then unchanged.
    pub fn set_break(&mut self, new_break: i64) -> (r: Result<(), VmError>)
        requires
            old(self).wf(),
        ensures
            final(self).wf(),
            new_break >= 0 && new_break as u64 <= usize::MAX as u64 ==> r == Ok::<(), VmError>(())
                && final(self)@ == old(self)@.with_break(new_break as int)
                && final(self).program_break as int == new_break,
            !(new_break >= 0 && new_break as u64 <= usize::MAX as u64) ==> r == Err::<(), VmError>(
                VmError::OutOfBounds(new_break),
            ) && final(self)@ == old(self)@ && final(self).program_break == old(
                self,
            ).program_break,
    {
        if new_break < 0 {
            return Err(VmError::OutOfBounds(new_break));
        }
        if new_break as u64 > usize::MAX as u64 {
            return Err(VmError::OutOfBounds(new_break));
        }
        let target: usize = if new_break as u64 > self.virtual_memory_size as u64 {
            self.virtual_memory_size
        } else {
            new_break as usize
        };
        if target <= self.heap_memory.len() {
            self.heap_memory.truncate(target);
            proof {
                assert(self@.heap =~= old(self)@.with_break(new_break as int).heap);
                assert(self@ =~= old(self)@.with_break(new_break as int));
            }
        } else {
            while self.heap_memory.len() < target
                invariant
                    old(self)@.heap.len() <= self.heap_memory@.len() <= target,
                    target <= self.virtual_memory_size,
                    self.stack_memory@ == old(self).stack_memory@,
                    self.virtual_memory_size == old(self).virtual_memory_size,
                    forall|k: int|
                        0 <= k < old(self)@.heap.len() ==> self.heap_memory@[k] == old(
                            self,
                        )@.heap[k],
                    forall|k: int|
                        old(self)@.heap.len() <= k < self.heap_memory@.len()
                            ==> self.heap_memory@[k] == 0u8,
                decreases target - self.heap_memory@.len(),
            {
                self.heap_memory.push(0);
            }
            proof {
                assert(self@.heap =~= old(self)@.with_break(new_break as int).heap);
                assert(self@ =~= old(self)@.with_break(new_break as int));
            }
        }
        self.program_break = new_break as usize;
        Ok(())
    }
}

/// Byte `i` of `v`, counting from the least significant.
fn byte_of_value(v: u64, i: usize) -> (r: u8)
    requires
        i < 8,
    ensures
        r == nth_byte(v as nat, i as nat),
{
    proof {
        lemma_pow256_values();
    }
    let divisor: u64 = if i == 0 {
        1
    } else if i == 1 {
        0x100
    } else if i == 2 {
        0x1_0000
    } else if i == 3 {
        0x100_0000
    } else if i == 4 {
        0x1_0000_0000
    } else if i == 5 {
        0x100_0000_0000
    } else if i == 6 {
        0x1_0000_0000_0000
    } else {
        0x100_0000_0000_0000
    };
    ((v / divisor) % 256) as u8
}

} // verus!
