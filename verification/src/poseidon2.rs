//! The native Poseidon2 chip: `PERM_POS2` permutes sixteen cells, `COMP_POS2` compresses two
//! chunks of eight cells into eight.
use crate::conversion::Instruction;
use crate::field::{modp, BabyBear, BABY_BEAR_P};
use crate::machine::{cell, cells, written, ExecutionState, Memory, MemoryModel};
use crate::opcodes::{Poseidon2Opcode, DEFAULT_PC_STEP};
use openvm_stark_backend::p3_field::PrimeField32;
use openvm_stark_backend::p3_symmetric::Permutation;
use openvm_stark_sdk::config::baby_bear_poseidon2::poseidon2_perm;
use openvm_stark_sdk::p3_baby_bear::BabyBear as P3BabyBear;
use crate::bus::{execution_message, is_interaction, memory_message, vals, Bus, Interaction};
use vstd::prelude::*;

verus! {

/// The state width of the permutation.
pub const NATIVE_POSEIDON2_WIDTH: usize = 16;

/// The size of one input chunk.
pub const NATIVE_POSEIDON2_CHUNK_SIZE: usize = 8;

/// The Poseidon2 permutation of width 16 over BabyBear, on the canonical values of the state.
pub uninterp spec fn poseidon2_permutation(state: Seq<u32>) -> Seq<u32>;

/// Calls the Poseidon2 permutation of width 16 over BabyBear of Plonky3 with the fixed round
/// constants (`openvm_stark_sdk::config::baby_bear_poseidon2::poseidon2_perm`, through
/// `Permutation::permute_mut`).  Claimed: the result is a function of the input values
/// alone, named `poseidon2_permutation`, and its values are canonical.
#[verifier::external_body]
fn permute_values(state: [u32; 16]) -> (r: [u32; 16])
    ensures
        r@ == poseidon2_permutation(state@),
        forall|i: int| 0 <= i < 16 ==> #[trigger] r[i] < BABY_BEAR_P,
{
    let mut s: [P3BabyBear; 16] = state.map(P3BabyBear::new);
    poseidon2_perm().permute_mut(&mut s);
    s.map(|x| x.as_canonical_u32())
}

/// The canonical values of a state.
pub open spec fn values(s: Seq<BabyBear>) -> Seq<u32> {
    s.map_values(|x: BabyBear| x.v)
}

/// Field elements with the given values.
pub open spec fn elems(s: Seq<u32>) -> Seq<BabyBear> {
    s.map_values(|v: u32| BabyBear { v })
}

/// Permutes a state of sixteen field elements.
pub fn permute(state: &[BabyBear; 16]) -> (r: [BabyBear; 16])
    ensures
        values(r@) == poseidon2_permutation(values(state@)),
        forall|i: int| 0 <= i < 16 ==> #[trigger] r[i].v < BABY_BEAR_P,
{
    let mut raw: [u32; 16] = [0; 16];
    let mut i: usize = 0;
    while i < 16
        invariant
            i <= 16,
            forall|j: int| 0 <= j < i ==> #[trigger] raw[j] == state[j].v,
        decreases 16 - i,
    {
        raw[i] = state[i].v;
        i = i + 1;
    }
    assert(raw@ =~= values(state@));
    let out = permute_values(raw);
    let mut r: [BabyBear; 16] = [BabyBear::zero(); 16];
    let mut k: usize = 0;
    while k < 16
        invariant
            k <= 16,
            forall|j: int| 0 <= j < k ==> #[trigger] r[j].v == out[j],
        decreases 16 - k,
    {
        r[k] = BabyBear { v: out[k] };
        k = k + 1;
    }
    assert(values(r@) =~= out@);
    r
}

/// What one execution recorded: the operands, the pointers read, and the input state.
#[derive(Clone, Debug)]
pub struct NativePoseidon2ChipRecord {
    pub from_state: ExecutionState,
    pub opcode: Poseidon2Opcode,
    pub input: [BabyBear; 16],
    pub ptr_as: BabyBear,
    pub chunk_as: BabyBear,
    pub rd_ptr: BabyBear,
    pub rs1_ptr: BabyBear,
    pub c: BabyBear,
    pub rd_val: BabyBear,
    pub rs1_val: BabyBear,
    pub rs2_val: Option<BabyBear>,
}

/// The chip, with `SBOX_REGISTERS` registers per S-box in its AIR.
pub struct NativePoseidon2BaseChip<const SBOX_REGISTERS: usize> {
    pub offset: usize,
    pub records: Vec<NativePoseidon2ChipRecord>,
}

/// The pointer of the second chunk.
pub open spec fn rs2_spec(m: MemoryModel, ins: Instruction, is_comp: bool) -> int {
    if is_comp {
        cell(m, ins.d.v, ins.c.v as int).v as int
    } else {
        modp(cell(m, ins.d.v, ins.b.v as int).v + 8)
    }
}

/// The input state: the two chunks read.
pub open spec fn input_spec(m: MemoryModel, ins: Instruction, is_comp: bool) -> Seq<BabyBear> {
    cells(m, ins.e.v, cell(m, ins.d.v, ins.b.v as int).v as int, 8) + cells(
        m,
        ins.e.v,
        rs2_spec(m, ins, is_comp),
        8,
    )
}

/// The pointer cells the instruction reads hold canonical values.
pub open spec fn pointers_canonical(m: MemoryModel, ins: Instruction, is_comp: bool) -> bool {
    &&& cell(m, ins.d.v, ins.a.v as int).v < BABY_BEAR_P
    &&& cell(m, ins.d.v, ins.b.v as int).v < BABY_BEAR_P
    &&& is_comp ==> cell(m, ins.d.v, ins.c.v as int).v < BABY_BEAR_P
}

impl<const SBOX_REGISTERS: usize> NativePoseidon2BaseChip<SBOX_REGISTERS> {
    /// One trace row per executed instruction.
    pub fn current_trace_height(&self) -> (r: usize)
        ensures
            r == self.records@.len(),
    {
        self.records.len()
    }

    /// The name of the opcode with the given global number.
    pub fn get_opcode_name(&self, opcode: usize) -> (r: String)
        requires
            self.offset <= opcode < self.offset + 2,
        ensures
            forall|o: Poseidon2Opcode| o.spec_local() == opcode - self.offset ==> r@ == o.name_spec(),
    {
        let op = Poseidon2Opcode::from_usize(opcode - self.offset);
        match op {
            Some(o) => o.name(),
            None => String::new(),
        }
    }

    pub fn new(offset: usize) -> (r: Self)
        ensures
            r.offset == offset,
            r.records@.len() == 0,
    {
        NativePoseidon2BaseChip { offset, records: Vec::new() }
    }

    /// Executes `PERM_POS2` or `COMP_POS2`: reads the pointers `rd = [a]`, `rs1 = [b]` (and
    /// `rs2 = [c]` to compress, `rs1 + 8` to permute) in address space `d`, permutes the two
    /// chunks at `rs1` and `rs2` of address space `e`, and writes the whole output to `rd`
    /// (permute) or its first half (compress).
    #[verifier::spinoff_prover]
    #[verifier::rlimit(40)]
    pub fn execute(
        &mut self,
        memory: &mut Memory,
        instruction: &Instruction,
        from_state: ExecutionState,
    ) -> (r: ExecutionState)
        requires
            old(self).offset <= instruction.opcode.v < old(self).offset + 2,
            old(memory)@.timestamp == from_state.timestamp,
            from_state.timestamp + 7 < 0xffff_ffff,
            from_state.pc + DEFAULT_PC_STEP <= u32::MAX,
            pointers_canonical(old(memory)@, *instruction, instruction.opcode.v == old(self).offset + 1),
        ensures
            ({
                let m0 = old(memory)@;
                let is_comp = instruction.opcode.v == old(self).offset + 1;
                let rd = cell(m0, instruction.d.v, instruction.a.v as int).v as int;
                let output = elems(poseidon2_permutation(values(input_spec(m0, *instruction, is_comp))));
                &&& r == ExecutionState {
                    pc: (from_state.pc + DEFAULT_PC_STEP) as u32,
                    timestamp: (from_state.timestamp + 7) as u32,
                }
                &&& final(memory)@.timestamp == m0.timestamp + 7
                &&& output.len() == 16
                &&& is_comp ==> written(m0, final(memory)@, instruction.e.v, rd, output.take(8))
                &&& !is_comp ==> exists|mid: MemoryModel|
                    #![trigger written(m0, mid, instruction.e.v, rd, output.take(8))]
                    written(m0, mid, instruction.e.v, rd, output.take(8)) && written(
                        mid,
                        final(memory)@,
                        instruction.e.v,
                        modp(rd + 8),
                        output.skip(8),
                    )
                &&& final(self).records@.len() == old(self).records@.len() + 1
                &&& final(self).offset == old(self).offset
                &&& values(final(self).records@.last().input@) == values(input_spec(m0, *instruction, is_comp))
                &&& final(self).records@.last().opcode == (if is_comp {
                    Poseidon2Opcode::COMP_POS2
                } else {
                    Poseidon2Opcode::PERM_POS2
                })
                &&& final(self).records@.last().from_state == from_state
                &&& final(self).records@.last().ptr_as == instruction.d
                &&& final(self).records@.last().chunk_as == instruction.e
                &&& final(self).records@.last().rd_ptr == instruction.a
                &&& final(self).records@.last().rs1_ptr == instruction.b
                &&& final(self).records@.last().c == instruction.c
                &&& final(self).records@.last().rd_val == cell(m0, instruction.d.v, instruction.a.v as int)
                &&& final(self).records@.last().rs1_val == cell(m0, instruction.d.v, instruction.b.v as int)
                &&& final(self).records@.last().rs2_val == (if is_comp {
                    Some(cell(m0, instruction.d.v, instruction.c.v as int))
                } else {
                    None
                })
                &&& final(self).records@.drop_last() == old(self).records@
            }),
    {
        let ghost m0 = memory@;
        let is_comp = instruction.opcode.as_usize() - self.offset == 1;
        let d = instruction.d.as_canonical_u32();
        let e = instruction.e.as_canonical_u32();
        let rd = memory.read_cell(d, instruction.a.as_canonical_u32());
        let rs1 = memory.read_cell(d, instruction.b.as_canonical_u32());
        let rs2 = if is_comp {
            Some(memory.read_cell(d, instruction.c.as_canonical_u32()))
        } else {
            memory.increment_timestamp();
            None
        };
        let read1 = memory.read(e, rs1.as_canonical_u32(), 8);
        let rs2_ptr = match rs2 {
            Some(p) => p,
            None => rs1.add(BabyBear::from_canonical_usize(NATIVE_POSEIDON2_CHUNK_SIZE)),
        };
        let read2 = memory.read(e, rs2_ptr.as_canonical_u32(), 8);
        let mut input: [BabyBear; 16] = [BabyBear::zero(); 16];
        let mut i: usize = 0;
        while i < 8
            invariant
                i <= 8,
                read1@.len() == 8,
                read2@.len() == 8,
                forall|j: int| 0 <= j < i ==> #[trigger] input[j] == read1@[j],
                forall|j: int| 0 <= j < i ==> #[trigger] input[8 + j] == read2@[j],
            decreases 8 - i,
        {
            input[i] = read1[i];
            input[8 + i] = read2[i];
            i = i + 1;
        }
        assert(read1@ =~= cells(m0, e, rs1.v as int, 8));
        assert(read2@ =~= cells(m0, e, rs2_spec(m0, *instruction, is_comp), 8));
        assert forall|j: int| 8 <= j < 16 implies #[trigger] input@[j] == read2@[j - 8] by {
            assert(input[8 + (j - 8)] == read2@[j - 8]);
        }
        assert(input@ =~= read1@ + read2@);
        let output = permute(&input);
        let ghost out = elems(poseidon2_permutation(values(input@)));
        assert(output@ =~= out) by {
            assert forall|j: int| 0 <= j < 16 implies #[trigger] output@[j] == out[j] by {
                assert(values(output@)[j] == output@[j].v);
            }
        }
        let mut first: Vec<BabyBear> = Vec::new();
        let mut second: Vec<BabyBear> = Vec::new();
        let mut k: usize = 0;
        while k < 8
            invariant
                k <= 8,
                output@ == out,
                first@ =~= out.take(k as int),
                second@ =~= out.skip(8).take(k as int),
            decreases 8 - k,
        {
            first.push(output[k]);
            second.push(output[8 + k]);
            k = k + 1;
        }
        assert(out.skip(8).take(8) =~= out.skip(8));
        memory.write(e, rd.as_canonical_u32(), first.as_slice());
        let ghost mid = memory@;
        if is_comp {
            memory.increment_timestamp();
            assert forall|a: u32, q: int| 0 <= q < 0x1_0000_0000 implies #[trigger] cell(
                memory@,
                a,
                q,
            ) == cell(mid, a, q) by {}
        } else {
            let p2 = rd.add(BabyBear::from_canonical_usize(NATIVE_POSEIDON2_CHUNK_SIZE));
            memory.write(e, p2.as_canonical_u32(), second.as_slice());
            assert(written(m0, mid, e, rd.v as int, out.take(8)));
        }
        let opcode = if is_comp {
            Poseidon2Opcode::COMP_POS2
        } else {
            Poseidon2Opcode::PERM_POS2
        };
        self.records.push(
            NativePoseidon2ChipRecord {
                from_state,
                opcode,
                input,
                ptr_as: instruction.d,
                chunk_as: instruction.e,
                rd_ptr: instruction.a,
                rs1_ptr: instruction.b,
                c: instruction.c,
                rd_val: rd,
                rs1_val: rs1,
                rs2_val: rs2,
            },
        );
        assert(values(self.records@.last().input@) == values(input_spec(m0, *instruction, is_comp)));
        assert(self.records@.drop_last() =~= old(self).records@);
        ExecutionState { pc: from_state.pc + DEFAULT_PC_STEP, timestamp: memory.timestamp() }
    }
}

/// The chip, by the number of S-box registers its AIR needs for the constraint degree.
pub enum NativePoseidon2Chip {
    Register0(NativePoseidon2BaseChip<0>),
    Register1(NativePoseidon2BaseChip<1>),
}

impl NativePoseidon2Chip {
    /// One trace row per executed instruction.
    pub fn current_trace_height(&self) -> (r: usize)
        ensures
            r == self.num_records(),
    {
        match self {
            NativePoseidon2Chip::Register0(chip) => chip.current_trace_height(),
            NativePoseidon2Chip::Register1(chip) => chip.current_trace_height(),
        }
    }

    /// The name of the opcode with the given global number.
    pub fn get_opcode_name(&self, opcode: usize) -> (r: String)
        requires
            self.offset() <= opcode < self.offset() + 2,
        ensures
            forall|o: Poseidon2Opcode| o.spec_local() == opcode - self.offset() ==> r@ == o.name_spec(),
    {
        match self {
            NativePoseidon2Chip::Register0(chip) => chip.get_opcode_name(opcode),
            NativePoseidon2Chip::Register1(chip) => chip.get_opcode_name(opcode),
        }
    }

    /// The chip for the maximal constraint degree: no S-box register from degree 7 on.
    pub fn new(offset: usize, max_constraint_degree: usize) -> (r: Self)
        ensures
            max_constraint_degree >= 7 <==> r is Register0,
            r.offset() == offset,
            r.num_records() == 0,
    {
        if max_constraint_degree >= 7 {
            NativePoseidon2Chip::Register0(NativePoseidon2BaseChip::new(offset))
        } else {
            NativePoseidon2Chip::Register1(NativePoseidon2BaseChip::new(offset))
        }
    }

    pub open spec fn offset(&self) -> usize {
        match self {
            NativePoseidon2Chip::Register0(c) => c.offset,
            NativePoseidon2Chip::Register1(c) => c.offset,
        }
    }

    pub open spec fn num_records(&self) -> nat {
        match self {
            NativePoseidon2Chip::Register0(c) => c.records@.len(),
            NativePoseidon2Chip::Register1(c) => c.records@.len(),
        }
    }

    /// Executes with whichever chip it holds; both execute alike.
    pub fn execute(
        &mut self,
        memory: &mut Memory,
        instruction: &Instruction,
        from_state: ExecutionState,
    ) -> (r: ExecutionState)
        requires
            old(self).offset() <= instruction.opcode.v < old(self).offset() + 2,
            old(memory)@.timestamp == from_state.timestamp,
            from_state.timestamp + 7 < 0xffff_ffff,
            from_state.pc + DEFAULT_PC_STEP <= u32::MAX,
            pointers_canonical(
                old(memory)@,
                *instruction,
                instruction.opcode.v == old(self).offset() + 1,
            ),
        ensures
            ({
                let m0 = old(memory)@;
                let is_comp = instruction.opcode.v == old(self).offset() + 1;
                let rd = cell(m0, instruction.d.v, instruction.a.v as int).v as int;
                let output = elems(poseidon2_permutation(values(input_spec(m0, *instruction, is_comp))));
                &&& r == ExecutionState {
                    pc: (from_state.pc + DEFAULT_PC_STEP) as u32,
                    timestamp: (from_state.timestamp + 7) as u32,
                }
                &&& final(memory)@.timestamp == m0.timestamp + 7
                &&& output.len() == 16
                &&& is_comp ==> written(m0, final(memory)@, instruction.e.v, rd, output.take(8))
                &&& !is_comp ==> exists|mid: MemoryModel|
                    #![trigger written(m0, mid, instruction.e.v, rd, output.take(8))]
                    written(m0, mid, instruction.e.v, rd, output.take(8)) && written(
                        mid,
                        final(memory)@,
                        instruction.e.v,
                        modp(rd + 8),
                        output.skip(8),
                    )
                &&& final(self).offset() == old(self).offset()
                &&& final(self).num_records() == old(self).num_records() + 1
            }),
    {
        match self {
            NativePoseidon2Chip::Register0(chip) => chip.execute(memory, instruction, from_state),
            NativePoseidon2Chip::Register1(chip) => chip.execute(memory, instruction, from_state),
        }
    }
}

// ---------------------------------------------------------------------------------------------
// The memory and execution columns of the AIR.
// ---------------------------------------------------------------------------------------------
/// The columns of a row that concern memory and execution (the permutation's own columns and the
/// memory-checking auxiliary columns aside).  `opcode_flag` is 1 for a permutation, 2 for a
/// compression and 0 on a blank row.
#[derive(Clone, Copy, Debug)]
pub struct NativePoseidon2MemoryCols {
    pub from_pc: BabyBear,
    pub from_timestamp: BabyBear,
    pub opcode_flag: BabyBear,
    pub ptr_as: BabyBear,
    pub chunk_as: BabyBear,
    pub c: BabyBear,
    pub rs_ptr: [BabyBear; 2],
    pub rd_ptr: BabyBear,
    pub rs_val: [BabyBear; 2],
    pub rd_val: BabyBear,
}

impl NativePoseidon2MemoryCols {
    /// The columns of a row that executes nothing: all zero.
    pub fn blank() -> (r: NativePoseidon2MemoryCols)
        ensures
            r.from_pc.v == 0 && r.from_timestamp.v == 0 && r.opcode_flag.v == 0,
            r.ptr_as.v == 0 && r.chunk_as.v == 0 && r.c.v == 0 && r.rd_ptr.v == 0 && r.rd_val.v == 0,
            r.rs_ptr[0].v == 0 && r.rs_ptr[1].v == 0 && r.rs_val[0].v == 0 && r.rs_val[1].v == 0,
    {
        let z = BabyBear::zero();
        NativePoseidon2MemoryCols {
            from_pc: z,
            from_timestamp: z,
            opcode_flag: z,
            ptr_as: z,
            chunk_as: z,
            c: z,
            rs_ptr: [z, z],
            rd_ptr: z,
            rs_val: [z, z],
            rd_val: z,
        }
    }
}

/// The memory columns of a recorded instruction.
pub open spec fn memory_cols_of(r: NativePoseidon2ChipRecord, m: NativePoseidon2MemoryCols) -> bool {
    let is_comp = r.opcode == Poseidon2Opcode::COMP_POS2;
    &&& m.from_pc.val() == modp(r.from_state.pc as int)
    &&& m.from_timestamp.val() == modp(r.from_state.timestamp as int)
    &&& m.opcode_flag.v == (if is_comp { 2u32 } else { 1u32 })
    &&& m.ptr_as == r.ptr_as
    &&& m.chunk_as == r.chunk_as
    &&& m.c == r.c
    &&& m.rs_ptr[0] == r.rs1_ptr
    &&& m.rs_ptr[1] == (if is_comp { r.c } else { BabyBear { v: 0 } })
    &&& m.rd_ptr == r.rd_ptr
    &&& m.rs_val[0] == r.rs1_val
    &&& (is_comp ==> r.rs2_val is Some && m.rs_val[1] == r.rs2_val->Some_0)
    &&& (!is_comp ==> m.rs_val[1].val() == modp(r.rs1_val.val() + 8))
    &&& m.rd_val == r.rd_val
}

impl NativePoseidon2ChipRecord {
    /// The memory columns of the row of this record.  A compression record carries the second
    /// pointer it read.
    pub fn to_memory_cols(&self) -> (m: NativePoseidon2MemoryCols)
        requires
            self.opcode == Poseidon2Opcode::COMP_POS2 ==> self.rs2_val is Some,
        ensures
            memory_cols_of(*self, m),
    {
        let (rs2_ptr, rs2_val) = match self.rs2_val {
            Some(v) => (self.c, v),
            None => (
                BabyBear::zero(),
                self.rs1_val.add(BabyBear::from_canonical_usize(NATIVE_POSEIDON2_CHUNK_SIZE)),
            ),
        };
        let (rs2_ptr, rs2_val) = match self.opcode {
            Poseidon2Opcode::COMP_POS2 => (rs2_ptr, rs2_val),
            Poseidon2Opcode::PERM_POS2 => (
                BabyBear::zero(),
                self.rs1_val.add(BabyBear::from_canonical_usize(NATIVE_POSEIDON2_CHUNK_SIZE)),
            ),
        };
        NativePoseidon2MemoryCols {
            from_pc: BabyBear::from_wrapped_u32(self.from_state.pc),
            from_timestamp: BabyBear::from_wrapped_u32(self.from_state.timestamp),
            opcode_flag: match self.opcode {
                Poseidon2Opcode::PERM_POS2 => BabyBear::one(),
                Poseidon2Opcode::COMP_POS2 => BabyBear::two(),
            },
            ptr_as: self.ptr_as,
            chunk_as: self.chunk_as,
            c: self.c,
            rs_ptr: [self.rs1_ptr, rs2_ptr],
            rd_ptr: self.rd_ptr,
            rs_val: [self.rs1_val, rs2_val],
            rd_val: self.rd_val,
        }
    }
}

/// The selector of the permutation rows: `-f (f - 2)`, which is 1 at `f = 1` and 0 at 0 and 2.
pub open spec fn permute_selector(f: int) -> int {
    modp(-f * (f - 2))
}

/// The selector of the compression rows: `f (f - 1) / 2`, which is 1 at `f = 2` and 0 at 0 and 1.
pub open spec fn compress_selector(f: int) -> int {
    modp(f * (f - 1) * 1006632961)
}

/// The polynomial constraints on the memory columns of a row: the flag is 0, 1 or 2
/// (`f (f - 1) (f - 2) = 0`), and off permutation rows the third operand `c` is the pointer
/// the second chunk is read from.
pub open spec fn poseidon2_memory_ok(m: NativePoseidon2MemoryCols) -> bool {
    let f = m.opcode_flag.val();
    &&& modp(f * (f - 1) * (f - 2)) == 0
    &&& modp((permute_selector(f) - 1) * (m.c.val() - m.rs_ptr[1].val())) == 0
}

/// The selectors at the three flag values.
pub proof fn lemma_selectors(f: int)
    requires
        f == 0 || f == 1 || f == 2,
    ensures
        permute_selector(f) == (if f == 1 { 1int } else { 0int }),
        compress_selector(f) == (if f == 2 { 1int } else { 0int }),
        modp(f * (f - 1) * (f - 2)) == 0,
{
    crate::field::lemma_modp_small(0);
    crate::field::lemma_modp_small(1);
    assert(2int * 1006632961 == 2013265922);
    assert(2013265922int % 2013265921 == 1);
}

/// The AIR of the chip, as far as it concerns memory and execution; `offset` is the opcode
/// class offset.
pub struct NativePoseidon2Air {
    pub offset: usize,
}

/// Eight consecutive values of a state of sixteen: the first or the second chunk.
fn chunk(state: &[BabyBear; 16], second: bool) -> (r: [BabyBear; 8])
    ensures
        r@ == if second {
            state@.subrange(8, 16)
        } else {
            state@.subrange(0, 8)
        },
{
    let o: usize = if second { 8 } else { 0 };
    let r = [
        state[o],
        state[o + 1],
        state[o + 2],
        state[o + 3],
        state[o + 4],
        state[o + 5],
        state[o + 6],
        state[o + 7],
    ];
    proof {
        if second {
            assert(r@ =~= state@.subrange(8, 16));
        } else {
            assert(r@ =~= state@.subrange(0, 8));
        }
    }
    r
}

/// The messages of a row, given the permutation's input and output states: with `ts` the
/// starting timestamp, the reads of `[rd]`, `[rs1]` and (compress only) `[rs2]` in `ptr_as` at
/// `ts .. ts + 2`, the reads of the two input chunks at `rs_val` in `chunk_as` at `ts + 3` and
/// `ts + 4`, the writes of the output's first chunk at `rd_val` at `ts + 5` and (permute only)
/// its second chunk at `rd_val + 8` at `ts + 6`, and the execution from `(pc, ts)` to
/// `(pc + 4, ts + 7)`.
pub open spec fn poseidon2_interactions_ok(
    offset: usize,
    m: NativePoseidon2MemoryCols,
    input: Seq<BabyBear>,
    output: Seq<BabyBear>,
    msgs: Seq<Interaction>,
) -> bool {
    let f = m.opcode_flag.val();
    let permute = permute_selector(f);
    let compress = compress_selector(f);
    let valid = modp(permute + compress);
    let ts = m.from_timestamp.val();
    &&& msgs.len() == 8
    &&& is_interaction(msgs[0], Bus::MemoryRead, valid, seq![m.ptr_as.val(), m.rd_ptr.val(), ts] + vals(seq![m.rd_val]))
    &&& is_interaction(msgs[1], Bus::MemoryRead, valid, seq![m.ptr_as.val(), m.rs_ptr[0].val(), modp(ts + 1)] + vals(seq![m.rs_val[0]]))
    &&& is_interaction(msgs[2], Bus::MemoryRead, compress, seq![m.ptr_as.val(), m.rs_ptr[1].val(), modp(ts + 2)] + vals(seq![m.rs_val[1]]))
    &&& is_interaction(msgs[3], Bus::MemoryRead, valid, seq![m.chunk_as.val(), m.rs_val[0].val(), modp(ts + 3)] + vals(input.subrange(0, 8)))
    &&& is_interaction(msgs[4], Bus::MemoryRead, valid, seq![m.chunk_as.val(), m.rs_val[1].val(), modp(ts + 4)] + vals(input.subrange(8, 16)))
    &&& is_interaction(msgs[5], Bus::MemoryWrite, valid, seq![m.chunk_as.val(), m.rd_val.val(), modp(ts + 5)] + vals(output.subrange(0, 8)))
    &&& is_interaction(msgs[6], Bus::MemoryWrite, permute, seq![m.chunk_as.val(), modp(m.rd_val.val() + 8), modp(ts + 6)] + vals(output.subrange(8, 16)))
    &&& is_interaction(
        msgs[7],
        Bus::Execution,
        valid,
        seq![modp(f - 1 + offset)] + vals(seq![m.rd_ptr, m.rs_ptr[0], m.c, m.ptr_as, m.chunk_as]) + seq![
            m.from_pc.val(),
            ts,
            modp(m.from_pc.val() + 4),
            modp(ts + 7),
        ],
    )
}

/// `x + c` in the field.
fn plus(x: BabyBear, c: u32) -> (r: BabyBear)
    requires
        c < BABY_BEAR_P,
    ensures
        r.val() == modp(x.val() + c),
{
    proof {
        crate::field::lemma_modp_small(c as int);
    }
    x.add(BabyBear::from_canonical_u32(c))
}

impl NativePoseidon2Air {
    /// Evaluates the memory and execution constraints of a row.  Also returns the selectors of
    /// the row (`permute`, `compress`, and `is_valid`, their sum), which weigh its memory
    /// accesses and its execution, the opcode it executes, `flag - 1 + offset`, and its bus
    /// messages given the permutation's input and output states (see
    /// `poseidon2_interactions_ok`).
    pub fn eval_memory_and_execution(
        &self,
        m: &NativePoseidon2MemoryCols,
        input: &[BabyBear; 16],
        output: &[BabyBear; 16],
    ) -> (r: (bool, BabyBear, BabyBear, BabyBear, BabyBear, Vec<Interaction>))
        requires
            self.offset < BABY_BEAR_P,
        ensures
            poseidon2_interactions_ok(self.offset, *m, input@, output@, r.5@),
            r.0 == poseidon2_memory_ok(*m),
            r.1.val() == permute_selector(m.opcode_flag.val()),
            r.2.val() == compress_selector(m.opcode_flag.val()),
            r.3.val() == modp(permute_selector(m.opcode_flag.val()) + compress_selector(
                m.opcode_flag.val(),
            )),
            r.4.val() == modp(m.opcode_flag.val() - 1 + self.offset),
    {
        let f = m.opcode_flag;
        let one = BabyBear::one();
        let two = BabyBear::two();
        let f1 = f.sub(one);
        let f2 = f.sub(two);
        let fneg = f.neg();
        let permute = fneg.mul(f2);
        let half = BabyBear::from_canonical_u32(1006632961);
        let ff1 = f.mul(f1);
        let compress = ff1.mul(half);
        let is_valid = permute.add(compress);
        let cube = ff1.mul(f2);
        let ghost fv = f.val();
        proof {
            crate::field::lemma_modp_small(1);
            crate::field::lemma_modp_small(2);
            crate::field::lemma_modp_basics(fv - 1);
            crate::field::lemma_modp_basics(fv - 2);
            crate::field::lemma_modp_basics(-fv);
            crate::field::lemma_eqm_mul(fneg.val(), -fv, f2.val(), fv - 2);
            assert(-fv * (fv - 2) == (-fv) * (fv - 2));
            crate::field::lemma_modp_basics(fv * (fv - 1));
            crate::field::lemma_eqm_mul(fv, fv, f1.val(), fv - 1);
            crate::field::lemma_eqm_mul(ff1.val(), fv * (fv - 1), 1006632961, 1006632961);
            crate::field::lemma_eqm_mul(ff1.val(), fv * (fv - 1), f2.val(), fv - 2);
            crate::field::lemma_modp_small(cube.val());
            crate::field::lemma_modp_small(permute.val());
        }
        let c_ok = {
            let pm = permute.sub(one);
            let d = m.c.sub(m.rs_ptr[1]);
            let pr = pm.mul(d);
            proof {
                let pv = permute_selector(fv);
                crate::field::lemma_modp_basics(pv - 1);
                crate::field::lemma_modp_basics(m.c.val() - m.rs_ptr[1].val());
                crate::field::lemma_eqm_mul(pm.val(), pv - 1, d.val(), m.c.val() - m.rs_ptr[1].val());
                crate::field::lemma_modp_small(pr.val());
            }
            pr.v == 0
        };
        let opcode = f1.add(BabyBear::from_canonical_usize(self.offset));
        proof {
            crate::field::lemma_eqm_add(f1.val(), fv - 1, self.offset as int, self.offset as int);
        }
        let ts = m.from_timestamp;
        let mut msgs: Vec<Interaction> = Vec::new();
        let rd = [m.rd_val];
        let rs0 = [m.rs_val[0]];
        let rs1 = [m.rs_val[1]];
        msgs.push(memory_message(Bus::MemoryRead, is_valid, m.ptr_as, m.rd_ptr, ts, rd.as_slice()));
        msgs.push(memory_message(Bus::MemoryRead, is_valid, m.ptr_as, m.rs_ptr[0], plus(ts, 1), rs0.as_slice()));
        msgs.push(memory_message(Bus::MemoryRead, compress, m.ptr_as, m.rs_ptr[1], plus(ts, 2), rs1.as_slice()));
        let in0 = chunk(input, false);
        let in1 = chunk(input, true);
        let out0 = chunk(output, false);
        let out1 = chunk(output, true);
        msgs.push(memory_message(Bus::MemoryRead, is_valid, m.chunk_as, m.rs_val[0], plus(ts, 3), in0.as_slice()));
        msgs.push(memory_message(Bus::MemoryRead, is_valid, m.chunk_as, m.rs_val[1], plus(ts, 4), in1.as_slice()));
        msgs.push(memory_message(Bus::MemoryWrite, is_valid, m.chunk_as, m.rd_val, plus(ts, 5), out0.as_slice()));
        msgs.push(memory_message(Bus::MemoryWrite, permute, m.chunk_as, plus(m.rd_val, 8), plus(ts, 6), out1.as_slice()));
        let operands = [m.rd_ptr, m.rs_ptr[0], m.c, m.ptr_as, m.chunk_as];
        msgs.push(execution_message(is_valid, opcode, operands.as_slice(), m.from_pc, ts, plus(m.from_pc, 4), plus(ts, 7)));
        proof {
            assert(operands@ =~= seq![m.rd_ptr, m.rs_ptr[0], m.c, m.ptr_as, m.chunk_as]);
            assert(rd@ =~= seq![m.rd_val]);
            assert(rs0@ =~= seq![m.rs_val[0]]);
            assert(rs1@ =~= seq![m.rs_val[1]]);
        }
        (cube.v == 0 && c_ok, permute, compress, is_valid, opcode, msgs)
    }
}

/// The smallest power of two not below `n` (one for zero).
pub fn next_power_of_two(n: usize) -> (r: usize)
    requires
        n <= usize::MAX / 2,
    ensures
        crate::fri::is_pow2(r as nat),
        n <= r,
        r == 1 || r < 2 * n,
{
    let mut r: usize = 1;
    proof {
        vstd::arithmetic::power2::lemma2_to64();
    }
    while r < n
        invariant
            n <= usize::MAX / 2,
            1 <= r,
            r == 1 || r < 2 * n,
            crate::fri::is_pow2(r as nat),
        decreases 2 * n - r,
    {
        let ghost k = choose|k: nat| vstd::arithmetic::power2::pow2(k) == r;
        proof {
            vstd::arithmetic::power2::lemma_pow2_unfold(k + 1);
        }
        r = r * 2;
    }
    r
}

impl<const SBOX_REGISTERS: usize> NativePoseidon2BaseChip<SBOX_REGISTERS> {
    /// The memory columns of the trace: one row per record, then blank rows up to the next power
    /// of two.  Every row satisfies the memory and execution constraints.
    pub fn memory_trace(&self) -> (rows: Vec<NativePoseidon2MemoryCols>)
        requires
            self.records@.len() <= usize::MAX / 2,
            forall|k: int|
                0 <= k < self.records@.len() ==> (#[trigger] self.records@[k]).opcode
                    == Poseidon2Opcode::COMP_POS2 ==> self.records@[k].rs2_val is Some,
        ensures
            crate::fri::is_pow2(rows@.len() as nat),
            self.records@.len() <= rows@.len(),
            rows@.len() == 1 || rows@.len() < 2 * self.records@.len(),
            forall|k: int|
                0 <= k < self.records@.len() ==> memory_cols_of(
                    self.records@[k],
                    #[trigger] rows@[k],
                ),
            forall|k: int|
                self.records@.len() <= k < rows@.len() ==> (#[trigger] rows@[k]).opcode_flag.v
                    == 0 && rows@[k].c.v == 0 && rows@[k].rs_ptr[1].v == 0,
            forall|k: int| 0 <= k < rows@.len() ==> poseidon2_memory_ok(#[trigger] rows@[k]),
    {
        let height = next_power_of_two(self.records.len());
        let mut rows: Vec<NativePoseidon2MemoryCols> = Vec::new();
        let mut k: usize = 0;
        while k < height
            invariant
                k <= height,
                height >= self.records@.len(),
                forall|j: int|
                    0 <= j < self.records@.len() ==> (#[trigger] self.records@[j]).opcode
                        == Poseidon2Opcode::COMP_POS2 ==> self.records@[j].rs2_val is Some,
                rows@.len() == k,
                forall|j: int|
                    0 <= j < k && j < self.records@.len() ==> memory_cols_of(
                        self.records@[j],
                        #[trigger] rows@[j],
                    ),
                forall|j: int|
                    self.records@.len() <= j < k ==> (#[trigger] rows@[j]).opcode_flag.v == 0
                        && rows@[j].c.v == 0 && rows@[j].rs_ptr[1].v == 0,
                forall|j: int| 0 <= j < k ==> poseidon2_memory_ok(#[trigger] rows@[j]),
            decreases height - k,
        {
            let row = if k < self.records.len() {
                self.records[k].to_memory_cols()
            } else {
                NativePoseidon2MemoryCols::blank()
            };
            proof {
                let f = row.opcode_flag.val();
                lemma_selectors(f);
                crate::field::lemma_modp_small(0);
                if f == 1 {
                    assert(permute_selector(f) - 1 == 0);
                    assert((permute_selector(f) - 1) * (row.c.val() - row.rs_ptr[1].val()) == 0)
                        by (nonlinear_arith)
                        requires
                            permute_selector(f) - 1 == 0,
                    ;
                } else {
                    assert(row.c.val() - row.rs_ptr[1].val() == 0);
                    assert((permute_selector(f) - 1) * (row.c.val() - row.rs_ptr[1].val()) == 0)
                        by (nonlinear_arith)
                        requires
                            row.c.val() - row.rs_ptr[1].val() == 0,
                    ;
                }
            }
            rows.push(row);
            k = k + 1;
        }
        rows
    }
}

} // verus!
