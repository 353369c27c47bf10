//! The machine state that the native chips act on: memory cells of each address space (zero
//! until written), a timestamp that every memory access advances, and the input and hint
//! streams.
use crate::field::{BabyBear, BABY_BEAR_P};
use std::collections::VecDeque;
use vstd::hash_map::HashMapWithView;
use vstd::prelude::*;

verus! {

/// The state of the machine between two instructions.
#[derive(Clone, Copy, Debug, PartialEq, Eq, Structural)]
pub struct ExecutionState {
    pub pc: u32,
    pub timestamp: u32,
}

/// Why an instruction could not execute.
#[derive(Clone, Copy, Debug, PartialEq, Eq, Structural)]
pub enum ExecutionError {
    /// A check of the program failed at this program counter.
    Fail { pc: u32 },
    /// The hint stream ran out at this program counter.
    HintOutOfBounds { pc: u32 },
    /// The input stream is exhausted.
    EndOfInputStream,
}

/// The key of a cell: its address space in the upper half, its pointer in the lower half.
pub open spec fn cell_key(addr_space: u32, ptr: int) -> u64 {
    (addr_space as int * 0x1_0000_0000 + ptr) as u64
}

/// The memory as a map from cell keys to values, and the timestamp.
pub struct MemoryModel {
    pub cells: Map<u64, BabyBear>,
    pub timestamp: nat,
}

/// The value of a cell: zero until written.
pub open spec fn cell(m: MemoryModel, addr_space: u32, ptr: int) -> BabyBear {
    let k = cell_key(addr_space, ptr);
    if m.cells.contains_key(k) {
        m.cells[k]
    } else {
        BabyBear { v: 0 }
    }
}

/// An operand: the pointer itself in address space 0, the cell elsewhere.
pub open spec fn imm_or_cell(m: MemoryModel, addr_space: u32, ptr: u32) -> BabyBear {
    if addr_space == 0 {
        BabyBear { v: ptr }
    } else {
        cell(m, addr_space, ptr as int)
    }
}

/// The values of `n` consecutive cells.
pub open spec fn cells(m: MemoryModel, addr_space: u32, ptr: int, n: nat) -> Seq<BabyBear> {
    Seq::new(n, |i: int| cell(m, addr_space, ptr + i))
}

/// `m2` is `m` with `data` written from `ptr` on in `addr_space`: those cells hold the data,
/// every other cell is unchanged.
pub open spec fn written(
    m: MemoryModel,
    m2: MemoryModel,
    addr_space: u32,
    ptr: int,
    data: Seq<BabyBear>,
) -> bool {
    forall|a: u32, p: int|
        0 <= p < 0x1_0000_0000 ==> #[trigger] cell(m2, a, p) == if a == addr_space && ptr <= p < ptr
            + data.len() {
            data[p - ptr]
        } else {
            cell(m, a, p)
        }
}

/// A read after a write gives back what was written, and the cells the write did not touch
/// keep their values.
pub proof fn lemma_read_after_write(
    m: MemoryModel,
    m2: MemoryModel,
    addr_space: u32,
    ptr: int,
    data: Seq<BabyBear>,
)
    requires
        written(m, m2, addr_space, ptr, data),
        0 <= ptr,
        ptr + data.len() <= 0x1_0000_0000,
    ensures
        cells(m2, addr_space, ptr, data.len()) == data,
        forall|a: u32, q: int|
            0 <= q < 0x1_0000_0000 && (a != addr_space || q < ptr || ptr + data.len() <= q)
                ==> #[trigger] cell(m2, a, q) == cell(m, a, q),
{
    assert(cells(m2, addr_space, ptr, data.len()) =~= data) by {
        assert forall|i: int| 0 <= i < data.len() implies #[trigger] cells(
            m2,
            addr_space,
            ptr,
            data.len(),
        )[i] == data[i] by {
            assert(cell(m2, addr_space, ptr + i) == data[ptr + i - ptr]);
        }
    }
}

/// The memory of the machine.
pub struct Memory {
    cells: HashMapWithView<u64, BabyBear>,
    timestamp: u32,
}

impl View for Memory {
    type V = MemoryModel;

    closed spec fn view(&self) -> MemoryModel {
        MemoryModel { cells: self.cells@, timestamp: self.timestamp as nat }
    }
}

proof fn lemma_cell_key_injective(a: u32, p: int, b: u32, q: int)
    requires
        0 <= p < 0x1_0000_0000,
        0 <= q < 0x1_0000_0000,
        cell_key(a, p) == cell_key(b, q),
    ensures
        a == b && p == q,
{
    assert(a as int * 0x1_0000_0000 + p < 0x1_0000_0000_0000_0000) by (nonlinear_arith)
        requires
            a < 0x1_0000_0000,
            p < 0x1_0000_0000,
    ;
    assert(b as int * 0x1_0000_0000 + q < 0x1_0000_0000_0000_0000) by (nonlinear_arith)
        requires
            b < 0x1_0000_0000,
            q < 0x1_0000_0000,
    ;
    assert(a as int * 0x1_0000_0000 + p == b as int * 0x1_0000_0000 + q);
    if a < b {
        assert(a as int * 0x1_0000_0000 + 0x1_0000_0000 <= b as int * 0x1_0000_0000) by (
        nonlinear_arith)
            requires
                a < b,
        ;
    } else if a > b {
        assert(b as int * 0x1_0000_0000 + 0x1_0000_0000 <= a as int * 0x1_0000_0000) by (
        nonlinear_arith)
            requires
                b < a,
        ;
    }
}

fn key(addr_space: u32, ptr: u32) -> (r: u64)
    ensures
        r == cell_key(addr_space, ptr as int),
{
    proof {
        assert(addr_space as int * 0x1_0000_0000 + ptr < 0x1_0000_0000_0000_0000) by (
        nonlinear_arith)
            requires
                addr_space < 0x1_0000_0000,
                ptr < 0x1_0000_0000,
        ;
    }
    (addr_space as u64) * 0x1_0000_0000 + ptr as u64
}

impl Memory {
    /// An empty memory at the given timestamp.
    pub fn new(timestamp: u32) -> (r: Memory)
        ensures
            r@.cells == Map::<u64, BabyBear>::empty(),
            r@.timestamp == timestamp,
    {
        broadcast use vstd::std_specs::hash::group_hash_axioms;

        Memory { cells: HashMapWithView::new(), timestamp }
    }

    /// The current timestamp.
    pub fn timestamp(&self) -> (r: u32)
        ensures
            r == self@.timestamp,
    {
        self.timestamp
    }

    /// Advances the timestamp without an access.
    pub fn increment_timestamp(&mut self)
        requires
            old(self)@.timestamp < 0xffff_ffff,
        ensures
            final(self)@.cells == old(self)@.cells,
            final(self)@.timestamp == old(self)@.timestamp + 1,
    {
        self.timestamp = self.timestamp + 1;
    }

    /// Reads a cell without an access: the timestamp is unchanged.
    pub fn unsafe_read_cell(&self, addr_space: u32, ptr: u32) -> (r: BabyBear)
        ensures
            r == cell(self@, addr_space, ptr as int),
    {
        match self.cells.get(&key(addr_space, ptr)) {
            Some(v) => *v,
            None => BabyBear { v: 0 },
        }
    }

    /// Reads `n` consecutive cells in one access.
    pub fn read(&mut self, addr_space: u32, ptr: u32, n: u32) -> (r: Vec<BabyBear>)
        requires
            ptr + n <= 0x1_0000_0000,
            old(self)@.timestamp < 0xffff_ffff,
        ensures
            r@ == cells(old(self)@, addr_space, ptr as int, n as nat),
            final(self)@.cells == old(self)@.cells,
            final(self)@.timestamp == old(self)@.timestamp + 1,
    {
        let mut r: Vec<BabyBear> = Vec::new();
        let mut i: u32 = 0;
        while i < n
            invariant
                i <= n,
                ptr + n <= 0x1_0000_0000,
                *self == *old(self),
                r@ =~= cells(old(self)@, addr_space, ptr as int, n as nat).take(i as int),
            decreases n - i,
        {
            r.push(self.unsafe_read_cell(addr_space, ptr + i));
            i = i + 1;
        }
        self.timestamp = self.timestamp + 1;
        assert(cells(old(self)@, addr_space, ptr as int, n as nat).take(n as int) =~= cells(
            old(self)@,
            addr_space,
            ptr as int,
            n as nat,
        ));
        r
    }

    /// Reads one cell in one access.
    pub fn read_cell(&mut self, addr_space: u32, ptr: u32) -> (r: BabyBear)
        requires
            old(self)@.timestamp < 0xffff_ffff,
        ensures
            r == cell(old(self)@, addr_space, ptr as int),
            final(self)@.cells == old(self)@.cells,
            final(self)@.timestamp == old(self)@.timestamp + 1,
    {
        let r = self.unsafe_read_cell(addr_space, ptr);
        self.timestamp = self.timestamp + 1;
        r
    }

    /// Reads one operand in one access: a cell, or in address space 0, which holds no cells, the
    /// pointer itself as an immediate value.
    pub fn read_or_immediate(&mut self, addr_space: u32, ptr: u32) -> (r: BabyBear)
        requires
            old(self)@.timestamp < 0xffff_ffff,
        ensures
            r == imm_or_cell(old(self)@, addr_space, ptr),
            final(self)@.cells == old(self)@.cells,
            final(self)@.timestamp == old(self)@.timestamp + 1,
    {
        if addr_space == 0 {
            self.increment_timestamp();
            BabyBear { v: ptr }
        } else {
            self.read_cell(addr_space, ptr)
        }
    }

    /// Writes consecutive cells in one access and returns what they held before.
    pub fn write(&mut self, addr_space: u32, ptr: u32, data: &[BabyBear]) -> (prev: Vec<BabyBear>)
        requires
            ptr + data@.len() <= 0x1_0000_0000,
            old(self)@.timestamp < 0xffff_ffff,
        ensures
            prev@ == cells(old(self)@, addr_space, ptr as int, data@.len()),
            written(old(self)@, final(self)@, addr_space, ptr as int, data@),
            final(self)@.timestamp == old(self)@.timestamp + 1,
    {
        broadcast use vstd::std_specs::hash::group_hash_axioms;

        let mut prev: Vec<BabyBear> = Vec::new();
        let mut i: usize = 0;
        while i < data.len()
            invariant
                i <= data@.len(),
                ptr + data@.len() <= 0x1_0000_0000,
                self.timestamp == old(self).timestamp,
                prev@ =~= cells(old(self)@, addr_space, ptr as int, data@.len()).take(i as int),
                written(old(self)@, self@, addr_space, ptr as int, data@.take(i as int)),
            decreases data@.len() - i,
        {
            let p = ptr + i as u32;
            prev.push(self.unsafe_read_cell(addr_space, p));
            let ghost before = self@;
            self.cells.insert(key(addr_space, p), data[i]);
            proof {
                assert forall|a: u32, q: int| 0 <= q < 0x1_0000_0000 implies #[trigger] cell(
                    self@,
                    a,
                    q,
                ) == if a == addr_space && ptr <= q < ptr + data@.take(i + 1).len() {
                    data@.take(i + 1)[q - ptr]
                } else {
                    cell(old(self)@, a, q)
                } by {
                    if cell_key(a, q) == cell_key(addr_space, p as int) {
                        lemma_cell_key_injective(a, q, addr_space, p as int);
                    } else {
                        assert(cell(self@, a, q) == cell(before, a, q));
                    }
                }
            }
            i = i + 1;
        }
        assert(data@.take(i as int) =~= data@);
        let ghost pre = self@;
        self.timestamp = self.timestamp + 1;
        assert forall|a: u32, q: int| 0 <= q < 0x1_0000_0000 implies #[trigger] cell(self@, a, q)
            == cell(pre, a, q) by {}
        assert(cells(old(self)@, addr_space, ptr as int, data@.len()).take(i as int) =~= cells(
            old(self)@,
            addr_space,
            ptr as int,
            data@.len(),
        ));
        prev
    }
}

/// The input and hint streams of the machine.
pub struct Streams {
    pub input_stream: VecDeque<Vec<BabyBear>>,
    pub hint_stream: VecDeque<BabyBear>,
    /// Hint data by id, consumed from the front.
    pub hint_space: Vec<Vec<BabyBear>>,
}

} // verus!
