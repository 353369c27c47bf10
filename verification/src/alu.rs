//! The adapter of the native field-arithmetic chip: it reads two operands, each from memory or
//! as an immediate, hands them to the core, and writes the core's result to the native address
//! space.
use crate::conversion::Instruction;
use crate::field::{modp, BabyBear};
use crate::jal::NATIVE_AS;
use crate::machine::{imm_or_cell, written, ExecutionState, Memory};
use crate::opcodes::DEFAULT_PC_STEP;
use crate::bus::{execution_message, is_interaction, memory_message, vals, Bus, Interaction};
use vstd::prelude::*;

verus! {

/// One read of the adapter: the address space, the pointer, and the value read.
#[derive(Clone, Copy, Debug, PartialEq, Eq, Structural)]
pub struct NativeRead {
    pub address_space: BabyBear,
    pub pointer: BabyBear,
    pub value: BabyBear,
}

/// What the adapter read.
#[derive(Clone, Copy, Debug)]
pub struct AluNativeReadRecord {
    pub reads: [NativeRead; 2],
}

/// What the adapter wrote, and the state it started from.
#[derive(Clone, Copy, Debug)]
pub struct AluNativeWriteRecord {
    pub from_state: ExecutionState,
    pub pointer: BabyBear,
    pub value: BabyBear,
}

/// The columns of the adapter, the memory-checking auxiliary columns aside.
#[derive(Clone, Copy, Debug)]
pub struct AluNativeAdapterCols {
    pub from_pc: BabyBear,
    pub from_timestamp: BabyBear,
    pub a_pointer: BabyBear,
    pub b_pointer: BabyBear,
    pub c_pointer: BabyBear,
    pub e_as: BabyBear,
    pub f_as: BabyBear,
}

/// The adapter chip.
pub struct AluNativeAdapterChip;

impl AluNativeAdapterChip {
    /// The adapter, which holds no state.
    pub fn new() -> (r: Self)
        ensures
            r == AluNativeAdapterChip,
    {
        AluNativeAdapterChip
    }

    /// Reads the operands `[b]_e` and `[c]_f` (each an immediate in address space 0), one
    /// access each.
    pub fn preprocess(&mut self, memory: &mut Memory, instruction: &Instruction) -> (r: (
        [BabyBear; 2],
        AluNativeReadRecord,
    ))
        requires
            old(memory)@.timestamp + 2 < 0x1_0000_0000,
        ensures
            r.0[0] == imm_or_cell(old(memory)@, instruction.e.v, instruction.b.v),
            r.0[1] == imm_or_cell(old(memory)@, instruction.f.v, instruction.c.v),
            r.1.reads[0] == (NativeRead {
                address_space: instruction.e,
                pointer: instruction.b,
                value: r.0[0],
            }),
            r.1.reads[1] == (NativeRead {
                address_space: instruction.f,
                pointer: instruction.c,
                value: r.0[1],
            }),
            final(memory)@.cells == old(memory)@.cells,
            final(memory)@.timestamp == old(memory)@.timestamp + 2,
    {
        let x = memory.read_or_immediate(instruction.e.as_canonical_u32(), instruction.b.as_canonical_u32());
        let y = memory.read_or_immediate(instruction.f.as_canonical_u32(), instruction.c.as_canonical_u32());
        (
            [x, y],
            AluNativeReadRecord {
                reads: [
                    NativeRead { address_space: instruction.e, pointer: instruction.b, value: x },
                    NativeRead { address_space: instruction.f, pointer: instruction.c, value: y },
                ],
            },
        )
    }

    /// Writes the core's result to `[a]` of the native address space; the next program counter
    /// is the one the core set, or the next instruction.
    pub fn postprocess(
        &mut self,
        memory: &mut Memory,
        instruction: &Instruction,
        from_state: ExecutionState,
        output: BabyBear,
        to_pc: Option<u32>,
    ) -> (r: (ExecutionState, AluNativeWriteRecord))
        requires
            old(memory)@.timestamp < 0xffff_ffff,
            to_pc is None ==> from_state.pc + DEFAULT_PC_STEP <= u32::MAX,
        ensures
            written(old(memory)@, final(memory)@, NATIVE_AS, instruction.a.v as int, seq![output]),
            final(memory)@.timestamp == old(memory)@.timestamp + 1,
            r.0 == (ExecutionState {
                pc: match to_pc {
                    Some(pc) => pc,
                    None => (from_state.pc + DEFAULT_PC_STEP) as u32,
                },
                timestamp: (old(memory)@.timestamp + 1) as u32,
            }),
            r.1 == (AluNativeWriteRecord { from_state, pointer: instruction.a, value: output }),
    {
        let data = [output];
        memory.write(NATIVE_AS, instruction.a.as_canonical_u32(), &data);
        assert(data@ == seq![output]);
        let pc = match to_pc {
            Some(pc) => pc,
            None => from_state.pc + DEFAULT_PC_STEP,
        };
        (
            ExecutionState { pc, timestamp: memory.timestamp() },
            AluNativeWriteRecord { from_state, pointer: instruction.a, value: output },
        )
    }

    /// The adapter's columns of a row: the starting state, the three pointers and the two
    /// address spaces of the reads.
    pub fn generate_trace_row(
        &self,
        read_record: &AluNativeReadRecord,
        write_record: &AluNativeWriteRecord,
    ) -> (r: AluNativeAdapterCols)
        ensures
            r.from_pc.val() == modp(write_record.from_state.pc as int),
            r.from_timestamp.val() == modp(write_record.from_state.timestamp as int),
            r.a_pointer == write_record.pointer,
            r.b_pointer == read_record.reads[0].pointer,
            r.c_pointer == read_record.reads[1].pointer,
            r.e_as == read_record.reads[0].address_space,
            r.f_as == read_record.reads[1].address_space,
    {
        AluNativeAdapterCols {
            from_pc: BabyBear::from_wrapped_u32(write_record.from_state.pc),
            from_timestamp: BabyBear::from_wrapped_u32(write_record.from_state.timestamp),
            a_pointer: write_record.pointer,
            b_pointer: read_record.reads[0].pointer,
            c_pointer: read_record.reads[1].pointer,
            e_as: read_record.reads[0].address_space,
            f_as: read_record.reads[1].address_space,
        }
    }
}

/// The AIR of the adapter.
pub struct AluNativeAdapterAir;

/// The messages of a row: each operand read from memory unless its address space is zero (an
/// immediate, which must then equal its pointer), at `ts` and `ts + 1`; the write of the result to
/// `[a]` in the native address space at `ts + 2`; and the execution from `(pc, ts)` to
/// `(to_pc, ts + 3)`, `to_pc` being `pc + 4` unless the core sets it.
pub open spec fn alu_adapter_interactions_ok(
    cols: AluNativeAdapterCols,
    is_valid: BabyBear,
    opcode: BabyBear,
    reads: [BabyBear; 2],
    write: BabyBear,
    to_pc: Option<BabyBear>,
    msgs: Seq<Interaction>,
) -> bool {
    let ts = cols.from_timestamp.val();
    &&& msgs.len() == 4
    &&& is_interaction(
        msgs[0],
        Bus::MemoryRead,
        if cols.e_as.v == 0 { 0 } else { is_valid.val() },
        seq![cols.e_as.val(), cols.b_pointer.val(), ts] + vals(seq![reads[0]]),
    )
    &&& is_interaction(
        msgs[1],
        Bus::MemoryRead,
        if cols.f_as.v == 0 { 0 } else { is_valid.val() },
        seq![cols.f_as.val(), cols.c_pointer.val(), modp(ts + 1)] + vals(seq![reads[1]]),
    )
    &&& is_interaction(
        msgs[2],
        Bus::MemoryWrite,
        is_valid.val(),
        seq![NATIVE_AS as int, cols.a_pointer.val(), modp(ts + 2)] + vals(seq![write]),
    )
    &&& is_interaction(
        msgs[3],
        Bus::Execution,
        is_valid.val(),
        seq![opcode.val()] + vals(
            seq![cols.a_pointer, cols.b_pointer, cols.c_pointer, BabyBear { v: NATIVE_AS }, cols.e_as, cols.f_as],
        ) + seq![
            cols.from_pc.val(),
            ts,
            match to_pc {
                Some(p) => p.val(),
                None => modp(cols.from_pc.val() + 4),
            },
            modp(ts + 3),
        ],
    )
}

/// An operand in address space zero is its pointer.
pub open spec fn alu_immediates_ok(cols: AluNativeAdapterCols, is_valid: BabyBear, reads: [BabyBear; 2]) -> bool {
    &&& cols.e_as.v == 0 ==> modp(is_valid.val() * (reads[0].val() - cols.b_pointer.val())) == 0
    &&& cols.f_as.v == 0 ==> modp(is_valid.val() * (reads[1].val() - cols.c_pointer.val())) == 0
}

/// `x + c` in the field.
fn plus(x: BabyBear, c: u32) -> (r: BabyBear)
    requires
        c < crate::field::BABY_BEAR_P,
    ensures
        r.val() == modp(x.val() + c),
{
    proof {
        crate::field::lemma_modp_small(c as int);
    }
    x.add(BabyBear::from_canonical_u32(c))
}

/// `is_valid * (value - pointer)` vanishes.
fn immediate_ok(is_valid: BabyBear, value: BabyBear, pointer: BabyBear) -> (r: bool)
    ensures
        r == (modp(is_valid.val() * (value.val() - pointer.val())) == 0),
{
    let d = value.sub(pointer);
    let p = is_valid.mul(d);
    proof {
        crate::field::lemma_modp_basics(value.val() - pointer.val());
        crate::field::lemma_eqm_mul(is_valid.val(), is_valid.val(), d.val(), value.val() - pointer.val());
        crate::field::lemma_modp_small(p.val());
    }
    p.v == 0
}

impl AluNativeAdapterAir {
    /// Evaluates the adapter's constraints on a row, given what the core hands it: whether the
    /// row is valid, the opcode, the two operands read, the result written and the program
    /// counter the core sets, if any.  Returns whether the immediates agree with their pointers,
    /// and the row's messages.
    pub fn eval(
        &self,
        cols: &AluNativeAdapterCols,
        is_valid: BabyBear,
        opcode: BabyBear,
        reads: [BabyBear; 2],
        write: BabyBear,
        to_pc: Option<BabyBear>,
    ) -> (r: (bool, Vec<Interaction>))
        ensures
            r.0 == alu_immediates_ok(*cols, is_valid, reads),
            alu_adapter_interactions_ok(*cols, is_valid, opcode, reads, write, to_pc, r.1@),
    {
        let ts = cols.from_timestamp;
        let zero = BabyBear::zero();
        let native = BabyBear::from_canonical_u32(NATIVE_AS);
        let ok_b = cols.e_as.v != 0 || immediate_ok(is_valid, reads[0], cols.b_pointer);
        let ok_c = cols.f_as.v != 0 || immediate_ok(is_valid, reads[1], cols.c_pointer);
        let count_b = if cols.e_as.v == 0 { zero } else { is_valid };
        let count_c = if cols.f_as.v == 0 { zero } else { is_valid };
        let rb = [reads[0]];
        let rc = [reads[1]];
        let w = [write];
        let mut msgs: Vec<Interaction> = Vec::new();
        msgs.push(memory_message(Bus::MemoryRead, count_b, cols.e_as, cols.b_pointer, ts, rb.as_slice()));
        msgs.push(memory_message(Bus::MemoryRead, count_c, cols.f_as, cols.c_pointer, plus(ts, 1), rc.as_slice()));
        msgs.push(memory_message(Bus::MemoryWrite, is_valid, native, cols.a_pointer, plus(ts, 2), w.as_slice()));
        let next_pc = match to_pc {
            Some(p) => p,
            None => plus(cols.from_pc, 4),
        };
        let operands = [cols.a_pointer, cols.b_pointer, cols.c_pointer, native, cols.e_as, cols.f_as];
        msgs.push(execution_message(is_valid, opcode, operands.as_slice(), cols.from_pc, ts, next_pc, plus(ts, 3)));
        proof {
            assert(operands@ =~= seq![cols.a_pointer, cols.b_pointer, cols.c_pointer, BabyBear { v: NATIVE_AS }, cols.e_as, cols.f_as]);
            assert(rb@ =~= seq![reads[0]]);
            assert(rc@ =~= seq![reads[1]]);
            assert(w@ =~= seq![write]);
        }
        (ok_b && ok_c, msgs)
    }
}

} // verus!
