//! The native load/store chip: `LOADW`, `STOREW` and `HINT_STOREW` on blocks of `NUM_CELLS`
//! cells, addressed by a pointer read from memory plus an immediate offset.
use crate::conversion::Instruction;
use crate::field::{modp, BabyBear, BABY_BEAR_P};
use crate::machine::{cell, cells, written, ExecutionError, ExecutionState, Memory, Streams};
use crate::opcodes::{NativeLoadStoreOpcode, DEFAULT_PC_STEP};
use crate::bus::{execution_message, is_interaction, memory_message, vals, Bus, Interaction};
use vstd::prelude::*;

verus! {

/// The core columns of one row.
pub struct NativeLoadStoreCoreCols<T, const NUM_CELLS: usize> {
    pub is_loadw: T,
    pub is_storew: T,
    pub is_hint_storew: T,
    pub pointer_read: T,
    pub data: [T; NUM_CELLS],
}

/// The core AIR; `offset` is the opcode class offset.
#[derive(Clone, Debug)]
pub struct NativeLoadStoreCoreAir<const NUM_CELLS: usize> {
    pub offset: usize,
}

/// What the core AIR hands to the adapter for one row.
#[derive(Clone, Copy, Debug)]
pub struct NativeLoadStoreInstruction {
    pub is_valid: BabyBear,
    pub opcode: BabyBear,
    pub is_loadw: BabyBear,
    pub is_storew: BabyBear,
    pub is_hint_storew: BabyBear,
}

/// `x` is 0 or 1.
pub open spec fn is_bool(x: BabyBear) -> bool {
    x.v == 0 || x.v == 1
}

impl<const NUM_CELLS: usize> NativeLoadStoreCoreAir<NUM_CELLS> {
    /// Evaluates the core constraints on a row of canonical values: each flag and their sum
    /// are boolean; returns whether they hold and the instruction the row stands for, whose
    /// opcode is the class offset plus the local opcode of the set flag.
    pub fn eval(&self, cols: &NativeLoadStoreCoreCols<BabyBear, NUM_CELLS>) -> (r: (
        bool,
        NativeLoadStoreInstruction,
    ))
        requires
            cols.is_loadw.v < BABY_BEAR_P,
            cols.is_storew.v < BABY_BEAR_P,
            cols.is_hint_storew.v < BABY_BEAR_P,
            self.offset < BABY_BEAR_P,
        ensures
            r.0 <==> is_bool(cols.is_loadw) && is_bool(cols.is_storew) && is_bool(
                cols.is_hint_storew,
            ) && cols.is_loadw.v + cols.is_storew.v + cols.is_hint_storew.v <= 1,
            r.1.is_valid.val() == modp(
                cols.is_loadw.val() + cols.is_storew.val() + cols.is_hint_storew.val(),
            ),
            r.1.opcode.val() == modp(
                self.offset + cols.is_storew.val() + 2 * cols.is_hint_storew.val(),
            ),
            r.1.is_loadw == cols.is_loadw,
            r.1.is_storew == cols.is_storew,
            r.1.is_hint_storew == cols.is_hint_storew,
    {
        let flags_bool = (cols.is_loadw.v == 0 || cols.is_loadw.v == 1) && (cols.is_storew.v == 0
            || cols.is_storew.v == 1) && (cols.is_hint_storew.v == 0 || cols.is_hint_storew.v
            == 1);
        let is_valid = cols.is_loadw.add(cols.is_storew).add(cols.is_hint_storew);
        proof {
            if flags_bool {
                crate::field::lemma_modp_small(cols.is_loadw.val() + cols.is_storew.val());
                crate::field::lemma_modp_small(
                    cols.is_loadw.val() + cols.is_storew.val() + cols.is_hint_storew.val(),
                );
            }
        }
        let ok = flags_bool && (is_valid.v == 0 || is_valid.v == 1);
        let local = cols.is_storew.add(cols.is_hint_storew.mul(BabyBear::two()));
        let opcode = BabyBear::from_canonical_usize(self.offset).add(local);
        proof {
            crate::field::lemma_eqm_mul(cols.is_hint_storew.val(), cols.is_hint_storew.val(), 2, 2);
            crate::field::lemma_eqm_add(
                cols.is_storew.val(),
                cols.is_storew.val(),
                modp(cols.is_hint_storew.val() * 2),
                cols.is_hint_storew.val() * 2,
            );
            crate::field::lemma_eqm_add(
                self.offset as int,
                self.offset as int,
                local.val(),
                cols.is_storew.val() + cols.is_hint_storew.val() * 2,
            );
        }
        (
            ok,
            NativeLoadStoreInstruction {
                is_valid,
                opcode,
                is_loadw: cols.is_loadw,
                is_storew: cols.is_storew,
                is_hint_storew: cols.is_hint_storew,
            },
        )
    }
}

/// What one execution recorded.
#[derive(Clone, Debug)]
pub struct NativeLoadStoreCoreRecord {
    pub opcode: NativeLoadStoreOpcode,
    pub pointer_read: BabyBear,
    pub data: Vec<BabyBear>,
}

/// What the adapter of one execution recorded: the starting state, the operands and the
/// pointer it wrote to.
#[derive(Clone, Copy, Debug)]
pub struct NativeLoadStoreAdapterRecord {
    pub from_state: ExecutionState,
    pub a: BabyBear,
    pub b: BabyBear,
    pub c: BabyBear,
    pub write_ptr: BabyBear,
}

/// The chip of blocks of `NUM_CELLS` cells: the core's records and, in the same order, the
/// adapter's.
pub struct NativeLoadStoreChip<const NUM_CELLS: usize> {
    pub offset: usize,
    pub records: Vec<NativeLoadStoreCoreRecord>,
    pub adapter_records: Vec<NativeLoadStoreAdapterRecord>,
}

/// The address the instruction reads from or writes to besides register `a`: the pointer at
/// `c` plus the immediate `b`.
pub open spec fn target_ptr(pointer: BabyBear, instruction: Instruction) -> int {
    modp(pointer.val() + instruction.b.val())
}

impl<const NUM_CELLS: usize> NativeLoadStoreChip<NUM_CELLS> {
    /// The name of the opcode with the given global number.
    pub fn get_opcode_name(&self, opcode: usize) -> (r: String)
        requires
            self.offset <= opcode < self.offset + 3,
        ensures
            forall|o: NativeLoadStoreOpcode| o.spec_local() == opcode - self.offset ==> r@ == o.name_spec(),
    {
        let op = NativeLoadStoreOpcode::from_usize(opcode - self.offset);
        match op {
            Some(o) => o.name(),
            None => String::new(),
        }
    }

    pub fn new(offset: usize) -> (r: Self)
        ensures
            r.offset == offset,
            r.records@.len() == 0,
            r.adapter_records@.len() == 0,
    {
        NativeLoadStoreChip { offset, records: Vec::new(), adapter_records: Vec::new() }
    }

    /// Executes one instruction.  With `ptr = mem[d][c] + b`:
    /// `LOADW` copies `mem[e][ptr..]` to `mem[d][a..]`; `STOREW` copies `mem[d][a..]` to
    /// `mem[e][ptr..]`; `HINT_STOREW` moves the next `NUM_CELLS` hints to `mem[e][ptr..]`, or
    /// fails when fewer are left.
    pub fn execute(
        &mut self,
        memory: &mut Memory,
        streams: &mut Streams,
        instruction: &Instruction,
        from_state: ExecutionState,
    ) -> (r: Result<ExecutionState, ExecutionError>)
        requires
            old(self).offset <= instruction.opcode.v < old(self).offset + 3,
            from_state.pc + DEFAULT_PC_STEP <= u32::MAX,
            old(memory)@.timestamp == from_state.timestamp,
            from_state.timestamp + 3 < 0xffff_ffff,
            instruction.a.v + NUM_CELLS <= 0x1_0000_0000,
            BABY_BEAR_P + NUM_CELLS <= 0x1_0000_0000,
        ensures
            ({
                let m0 = old(memory)@;
                let d = instruction.d.v;
                let e = instruction.e.v;
                let local = instruction.opcode.v - old(self).offset;
                let pointer = cell(m0, d, instruction.c.v as int);
                let ptr = target_ptr(pointer, *instruction);
                let hints = old(streams).hint_stream@;
                if local == 2 && hints.len() < NUM_CELLS {
                    &&& r == Err::<ExecutionState, ExecutionError>(
                        ExecutionError::HintOutOfBounds { pc: from_state.pc },
                    )
                    &&& final(memory)@.cells == m0.cells
                    &&& final(memory)@.timestamp == m0.timestamp + 1
                    &&& final(streams).hint_stream@ == hints
                } else {
                    let steps: nat = if local == 2 {
                        2
                    } else {
                        3
                    };
                    &&& r == Ok::<ExecutionState, ExecutionError>(
                        ExecutionState {
                            pc: (from_state.pc + DEFAULT_PC_STEP) as u32,
                            timestamp: (from_state.timestamp + steps) as u32,
                        },
                    )
                    &&& final(memory)@.timestamp == m0.timestamp + steps
                    &&& local == 0 ==> written(
                        m0,
                        final(memory)@,
                        d,
                        instruction.a.v as int,
                        cells(m0, e, ptr, NUM_CELLS as nat),
                    )
                    &&& local == 1 ==> written(
                        m0,
                        final(memory)@,
                        e,
                        ptr,
                        cells(m0, d, instruction.a.v as int, NUM_CELLS as nat),
                    )
                    &&& local == 2 ==> written(
                        m0,
                        final(memory)@,
                        e,
                        ptr,
                        hints.take(NUM_CELLS as int),
                    )
                    &&& local == 2 ==> final(streams).hint_stream@ == hints.skip(NUM_CELLS as int)
                    &&& local != 2 ==> final(streams).hint_stream@ == hints
                    &&& final(self).records@.len() == old(self).records@.len() + 1
                    &&& final(self).adapter_records@ == old(self).adapter_records@.push(
                        NativeLoadStoreAdapterRecord {
                            from_state,
                            a: instruction.a,
                            b: instruction.b,
                            c: instruction.c,
                            write_ptr: if local == 0 {
                                instruction.a
                            } else {
                                BabyBear { v: ptr as u32 }
                            },
                        },
                    )
                }
            }),
            r is Err ==> final(self).adapter_records@ == old(self).adapter_records@,
            final(streams).input_stream@ == old(streams).input_stream@,
    {
        let local = instruction.opcode.as_usize() - self.offset;
        let d = instruction.d.as_canonical_u32();
        let e = instruction.e.as_canonical_u32();
        let pointer = memory.read_cell(d, instruction.c.as_canonical_u32());
        let ptr = pointer.add(instruction.b).as_canonical_u32();
        let ghost m1 = memory@;
        let n = NUM_CELLS as u32;
        if local == 2 {
            if streams.hint_stream.len() < NUM_CELLS {
                return Err(ExecutionError::HintOutOfBounds { pc: from_state.pc });
            }
            let mut data: Vec<BabyBear> = Vec::new();
            let mut i: usize = 0;
            while i < NUM_CELLS
                invariant
                    i <= NUM_CELLS,
                    streams.hint_stream@.len() + i == old(streams).hint_stream@.len(),
                    old(streams).hint_stream@.len() >= NUM_CELLS,
                    data@ == old(streams).hint_stream@.take(i as int),
                    streams.hint_stream@ == old(streams).hint_stream@.skip(i as int),
                    streams.input_stream@ == old(streams).input_stream@,
                decreases NUM_CELLS - i,
            {
                let h = streams.hint_stream.pop_front();
                match h {
                    Some(v) => data.push(v),
                    None => {},
                }
                proof {
                    assert(old(streams).hint_stream@.take(i + 1) =~= old(streams).hint_stream@.take(
                        i as int,
                    ).push(old(streams).hint_stream@[i as int]));
                    assert(old(streams).hint_stream@.skip(i + 1) =~= old(streams).hint_stream@.skip(
                        i as int,
                    ).drop_first());
                }
                i = i + 1;
            }
            memory.write(e, ptr, data.as_slice());
            self.adapter_records.push(
                NativeLoadStoreAdapterRecord {
                    from_state,
                    a: instruction.a,
                    b: instruction.b,
                    c: instruction.c,
                    write_ptr: BabyBear { v: ptr },
                },
            );
            self.records.push(
                NativeLoadStoreCoreRecord {
                    opcode: NativeLoadStoreOpcode::HINT_STOREW,
                    pointer_read: pointer,
                    data,
                },
            );
            return Ok(
                ExecutionState {
                    pc: from_state.pc + DEFAULT_PC_STEP,
                    timestamp: memory.timestamp(),
                },
            );
        }
        let write_ptr = if local == 0 {
            instruction.a
        } else {
            BabyBear { v: ptr }
        };
        self.adapter_records.push(
            NativeLoadStoreAdapterRecord {
                from_state,
                a: instruction.a,
                b: instruction.b,
                c: instruction.c,
                write_ptr,
            },
        );
        if local == 0 {
            let data = memory.read(e, ptr, n);
            memory.write(d, instruction.a.as_canonical_u32(), data.as_slice());
            self.records.push(
                NativeLoadStoreCoreRecord {
                    opcode: NativeLoadStoreOpcode::LOADW,
                    pointer_read: pointer,
                    data,
                },
            );
        } else {
            let data = memory.read(d, instruction.a.as_canonical_u32(), n);
            memory.write(e, ptr, data.as_slice());
            self.records.push(
                NativeLoadStoreCoreRecord {
                    opcode: NativeLoadStoreOpcode::STOREW,
                    pointer_read: pointer,
                    data,
                },
            );
        }
        Ok(ExecutionState { pc: from_state.pc + DEFAULT_PC_STEP, timestamp: memory.timestamp() })
    }
}

/// The columns of the adapter, the memory-checking auxiliary columns aside.
#[derive(Clone, Copy, Debug)]
pub struct NativeLoadStoreAdapterCols {
    pub from_pc: BabyBear,
    pub from_timestamp: BabyBear,
    pub a: BabyBear,
    pub b: BabyBear,
    pub c: BabyBear,
    pub data_write_pointer: BabyBear,
}

/// The adapter of the chip.
pub struct NativeLoadStoreAdapterChip;

impl NativeLoadStoreAdapterChip {
    /// The adapter's columns of a row: the starting state, the operands and the pointer written.
    pub fn generate_trace_row(record: &NativeLoadStoreAdapterRecord) -> (r: NativeLoadStoreAdapterCols)
        ensures
            r.from_pc.val() == modp(record.from_state.pc as int),
            r.from_timestamp.val() == modp(record.from_state.timestamp as int),
            r.a == record.a,
            r.b == record.b,
            r.c == record.c,
            r.data_write_pointer == record.write_ptr,
    {
        NativeLoadStoreAdapterCols {
            from_pc: BabyBear::from_wrapped_u32(record.from_state.pc),
            from_timestamp: BabyBear::from_wrapped_u32(record.from_state.timestamp),
            a: record.a,
            b: record.b,
            c: record.c,
            data_write_pointer: record.write_ptr,
        }
    }
}

/// The adapter's constraint: the pointer written is `a` for a load and the read pointer plus
/// `b` for a store: `is_valid * data_write_pointer = is_loadw * a + (is_storew +
/// is_hint_storew) * (pointer + b)`.
pub open spec fn loadstore_adapter_ok(
    cols: NativeLoadStoreAdapterCols,
    ins: NativeLoadStoreInstruction,
    pointer: BabyBear,
) -> bool {
    modp(ins.is_valid.val() * cols.data_write_pointer.val()) == modp(
        ins.is_loadw.val() * cols.a.val() + (ins.is_storew.val() + ins.is_hint_storew.val()) * (
        pointer.val() + cols.b.val()),
    )
}

/// The pointer the data is read from: `a` for a store, `pointer + b` for a load.
pub open spec fn loadstore_read_ptr(cols: NativeLoadStoreAdapterCols, ins: NativeLoadStoreInstruction, pointer: BabyBear) -> int {
    modp(ins.is_storew.val() * cols.a.val() + ins.is_loadw.val() * (pointer.val() + cols.b.val()))
}

/// The number of timestamps a row uses: the pointer read, the data read (not for a hint
/// store) and the write.
pub open spec fn loadstore_delta(ins: NativeLoadStoreInstruction) -> int {
    modp(ins.is_valid.val() + (ins.is_valid.val() - ins.is_hint_storew.val()) + ins.is_valid.val())
}

/// The messages of an adapter row: the read of the pointer `[c]` at `ts`, the read of the data
/// at `ts + is_valid` (none for a hint store), the write of the data at the write pointer after
/// it, and the execution from `(pc, ts)` to `(to_pc or pc + 4, ts + delta)`; all in the native
/// address space.
pub open spec fn loadstore_adapter_messages(
    cols: NativeLoadStoreAdapterCols,
    ins: NativeLoadStoreInstruction,
    pointer: BabyBear,
    data_read: Seq<BabyBear>,
    data_write: Seq<BabyBear>,
    to_pc: Option<BabyBear>,
    msgs: Seq<Interaction>,
) -> bool {
    let ts = cols.from_timestamp.val();
    let iv = ins.is_valid.val();
    let hv = ins.is_hint_storew.val();
    &&& msgs.len() == 4
    &&& is_interaction(msgs[0], Bus::MemoryRead, iv, seq![4int, cols.c.val(), ts] + vals(seq![pointer]))
    &&& is_interaction(
        msgs[1],
        Bus::MemoryRead,
        modp(iv - hv),
        seq![4int, loadstore_read_ptr(cols, ins, pointer), modp(ts + iv)] + vals(data_read),
    )
    &&& is_interaction(
        msgs[2],
        Bus::MemoryWrite,
        iv,
        seq![4int, cols.data_write_pointer.val(), modp(ts + iv + (iv - hv))] + vals(data_write),
    )
    &&& is_interaction(
        msgs[3],
        Bus::Execution,
        iv,
        seq![ins.opcode.val()] + vals(seq![cols.a, cols.b, cols.c, BabyBear { v: 4 }, BabyBear { v: 4 }])
            + seq![
            cols.from_pc.val(),
            ts,
            match to_pc {
                Some(p) => p.val(),
                None => modp(cols.from_pc.val() + 4),
            },
            modp(ts + loadstore_delta(ins)),
        ],
    )
}

/// The AIR of the adapter.
pub struct NativeLoadStoreAdapterAir<const NUM_CELLS: usize>;

impl<const NUM_CELLS: usize> NativeLoadStoreAdapterAir<NUM_CELLS> {
    /// Evaluates the adapter's constraint on a row, given the core's instruction flags and the
    /// pointer read from `[c]`; returns with it the pointer the data is read from
    /// (`is_storew * a + is_loadw * (pointer + b)`) and the number of timestamps the row uses
    /// (`is_valid` for the pointer read, `is_valid - is_hint_storew` for the data read,
    /// `is_valid` for the write).
    pub fn eval(
        &self,
        cols: &NativeLoadStoreAdapterCols,
        ins: &NativeLoadStoreInstruction,
        pointer: BabyBear,
        data_read: &[BabyBear; NUM_CELLS],
        data_write: &[BabyBear; NUM_CELLS],
        to_pc: Option<BabyBear>,
    ) -> (r: (bool, BabyBear, BabyBear, Vec<Interaction>))
        ensures
            loadstore_adapter_messages(*cols, *ins, pointer, data_read@, data_write@, to_pc, r.3@),
            r.0 == loadstore_adapter_ok(*cols, *ins, pointer),
            r.1.val() == modp(
                ins.is_storew.val() * cols.a.val() + ins.is_loadw.val() * (pointer.val()
                    + cols.b.val()),
            ),
            r.2.val() == modp(
                ins.is_valid.val() + (ins.is_valid.val() - ins.is_hint_storew.val())
                    + ins.is_valid.val(),
            ),
    {
        let target = pointer.add(cols.b);
        let lhs = ins.is_valid.mul(cols.data_write_pointer);
        let t1 = ins.is_loadw.mul(cols.a);
        let st = ins.is_storew.add(ins.is_hint_storew);
        let t2 = st.mul(target);
        let rhs = t1.add(t2);
        let r1 = ins.is_storew.mul(cols.a);
        let r2 = ins.is_loadw.mul(target);
        let read_ptr = r1.add(r2);
        let data_steps = ins.is_valid.sub(ins.is_hint_storew);
        let two_steps = ins.is_valid.add(data_steps);
        let delta = two_steps.add(ins.is_valid);
        proof {
            let tv = pointer.val() + cols.b.val();
            let sv = ins.is_storew.val() + ins.is_hint_storew.val();
            crate::field::lemma_modp_basics(tv);
            crate::field::lemma_modp_basics(sv);
            crate::field::lemma_eqm_mul(st.val(), sv, target.val(), tv);
            crate::field::lemma_modp_basics(ins.is_loadw.val() * cols.a.val());
            crate::field::lemma_modp_basics(sv * tv);
            crate::field::lemma_eqm_add(t1.val(), ins.is_loadw.val() * cols.a.val(), t2.val(), sv * tv);
            crate::field::lemma_modp_small(lhs.val());
            crate::field::lemma_modp_small(rhs.val());
            crate::field::lemma_eqm_mul(ins.is_loadw.val(), ins.is_loadw.val(), target.val(), tv);
            crate::field::lemma_modp_basics(ins.is_storew.val() * cols.a.val());
            crate::field::lemma_modp_basics(ins.is_loadw.val() * tv);
            crate::field::lemma_eqm_add(r1.val(), ins.is_storew.val() * cols.a.val(), r2.val(), ins.is_loadw.val() * tv);
            let dv = ins.is_valid.val() - ins.is_hint_storew.val();
            crate::field::lemma_modp_basics(dv);
            crate::field::lemma_eqm_add(ins.is_valid.val(), ins.is_valid.val(), data_steps.val(), dv);
            crate::field::lemma_modp_basics(ins.is_valid.val() + dv);
            crate::field::lemma_eqm_add(
                two_steps.val(),
                ins.is_valid.val() + dv,
                ins.is_valid.val(),
                ins.is_valid.val(),
            );
        }
        let four = BabyBear::from_canonical_u32(4);
        let ts = cols.from_timestamp;
        let ts1 = ts.add(ins.is_valid);
        let ts2 = ts1.add(data_steps);
        let ptr_read = [pointer];
        let mut interactions: Vec<Interaction> = Vec::new();
        interactions.push(memory_message(Bus::MemoryRead, ins.is_valid, four, cols.c, ts, ptr_read.as_slice()));
        interactions.push(memory_message(Bus::MemoryRead, data_steps, four, read_ptr, ts1, data_read.as_slice()));
        interactions.push(
            memory_message(Bus::MemoryWrite, ins.is_valid, four, cols.data_write_pointer, ts2, data_write.as_slice()),
        );
        let next_pc = match to_pc {
            Some(p) => p,
            None => cols.from_pc.add(four),
        };
        let next_ts = ts.add(delta);
        let operands = [cols.a, cols.b, cols.c, four, four];
        interactions.push(
            execution_message(ins.is_valid, ins.opcode, operands.as_slice(), cols.from_pc, ts, next_pc, next_ts),
        );
        proof {
            crate::field::lemma_modp_small(4);
            let tv = cols.from_timestamp.val();
            let iv = ins.is_valid.val();
            let dv = iv - ins.is_hint_storew.val();
            crate::field::lemma_modp_basics(tv + iv);
            crate::field::lemma_eqm_add(ts1.val(), tv + iv, data_steps.val(), dv);
            assert(operands@ =~= seq![cols.a, cols.b, cols.c, BabyBear { v: 4 }, BabyBear { v: 4 }]);
        }
        (lhs.v == rhs.v, read_ptr, delta, interactions)
    }
}

/// The adapter's row of an executed instruction satisfies the adapter's constraint, reads its
/// data from the pointer the execution read (`pointer + b` for a load, `a` for a store, none for
/// a hint store), and uses as many timestamps as the execution: three, or two for a hint store.
pub proof fn lemma_loadstore_adapter_row_satisfies_air(
    record: NativeLoadStoreAdapterRecord,
    cols: NativeLoadStoreAdapterCols,
    ins: NativeLoadStoreInstruction,
    pointer: BabyBear,
    local: int,
)
    requires
        0 <= local < 3,
        cols.a == record.a,
        cols.b == record.b,
        cols.data_write_pointer == record.write_ptr,
        ins.is_valid.v == 1,
        ins.is_loadw.v == (if local == 0 { 1u32 } else { 0u32 }),
        ins.is_storew.v == (if local == 1 { 1u32 } else { 0u32 }),
        ins.is_hint_storew.v == (if local == 2 { 1u32 } else { 0u32 }),
        record.write_ptr == (if local == 0 {
            record.a
        } else {
            BabyBear { v: modp(pointer.val() + record.b.val()) as u32 }
        }),
    ensures
        loadstore_adapter_ok(cols, ins, pointer),
        modp(ins.is_storew.val() * cols.a.val() + ins.is_loadw.val() * (pointer.val()
            + cols.b.val())) == if local == 0 {
            modp(pointer.val() + record.b.val())
        } else if local == 1 {
            modp(record.a.val())
        } else {
            0
        },
        modp(ins.is_valid.val() + (ins.is_valid.val() - ins.is_hint_storew.val())
            + ins.is_valid.val()) == if local == 2 {
            2int
        } else {
            3int
        },
{
    let tv = pointer.val() + record.b.val();
    crate::field::lemma_modp_small(0);
    crate::field::lemma_modp_small(2);
    crate::field::lemma_modp_small(3);
    crate::field::lemma_modp_basics(tv);
    if local == 0 {
        assert(ins.is_loadw.val() * cols.a.val() + (ins.is_storew.val()
            + ins.is_hint_storew.val()) * tv == cols.a.val());
        assert(ins.is_valid.val() * cols.data_write_pointer.val() == cols.a.val());
        assert(ins.is_storew.val() * cols.a.val() + ins.is_loadw.val() * tv == tv);
    } else {
        let sv = ins.is_storew.val() + ins.is_hint_storew.val();
        assert(sv == 1);
        assert(sv * tv == tv) by (nonlinear_arith)
            requires
                sv == 1,
        ;
        assert(ins.is_loadw.val() * cols.a.val() == 0);
        assert(ins.is_loadw.val() * cols.a.val() + (ins.is_storew.val()
            + ins.is_hint_storew.val()) * tv == tv);
        assert(ins.is_valid.val() * cols.data_write_pointer.val() == modp(tv));
        if local == 1 {
            assert(ins.is_storew.val() * cols.a.val() + ins.is_loadw.val() * tv == cols.a.val());
        } else {
            assert(ins.is_storew.val() * cols.a.val() + ins.is_loadw.val() * tv == 0);
        }
    }
}

/// What a valid adapter row with exactly one flag set, and its constraint met, sends: the read
/// of the pointer `[c]` at `ts`; for a load the read of `[pointer + b]` at `ts + 1` and the write
/// of `[a]` at `ts + 2`; for a store the read of `[a]` at `ts + 1` and the write of
/// `[pointer + b]` at `ts + 2`; for a hint store no read and the write of `[pointer + b]` at
/// `ts + 1`; and the execution to `pc + 4` (unless the core sets the program counter) with three
/// timestamps used, two for a hint store.
pub proof fn lemma_loadstore_adapter_valid_row(
    cols: NativeLoadStoreAdapterCols,
    ins: NativeLoadStoreInstruction,
    pointer: BabyBear,
    data_read: Seq<BabyBear>,
    data_write: Seq<BabyBear>,
    to_pc: Option<BabyBear>,
    msgs: Seq<Interaction>,
    local: int,
)
    requires
        0 <= local < 3,
        ins.is_valid.v == 1,
        ins.is_loadw.v == (if local == 0 { 1u32 } else { 0u32 }),
        ins.is_storew.v == (if local == 1 { 1u32 } else { 0u32 }),
        ins.is_hint_storew.v == (if local == 2 { 1u32 } else { 0u32 }),
        loadstore_adapter_ok(cols, ins, pointer),
        loadstore_adapter_messages(cols, ins, pointer, data_read, data_write, to_pc, msgs),
    ensures
        ({
            let ts = cols.from_timestamp.val();
            let target = modp(pointer.val() + cols.b.val());
            &&& msgs[0].count.val() == 1
            &&& msgs[0].fields@[1].val() == cols.c.val()
            &&& msgs[0].fields@[2].val() == ts
            &&& msgs[1].count.val() == (if local == 2 { 0int } else { 1int })
            &&& local == 0 ==> msgs[1].fields@[1].val() == target
            &&& local == 1 ==> msgs[1].fields@[1].val() == modp(cols.a.val())
            &&& local != 2 ==> msgs[1].fields@[2].val() == modp(ts + 1)
            &&& msgs[2].count.val() == 1
            &&& local == 0 ==> modp(msgs[2].fields@[1].val()) == modp(cols.a.val())
            &&& local != 0 ==> modp(msgs[2].fields@[1].val()) == target
            &&& msgs[2].fields@[2].val() == modp(ts + if local == 2 { 1int } else { 2int })
            &&& msgs[3].count.val() == 1
            &&& msgs[3].fields@[9].val() == modp(ts + if local == 2 { 2int } else { 3int })
            &&& to_pc is None ==> msgs[3].fields@[8].val() == modp(cols.from_pc.val() + 4)
        }),
{
    let ts = cols.from_timestamp.val();
    let iv = ins.is_valid.val();
    let hv = ins.is_hint_storew.val();
    crate::field::lemma_modp_small(0);
    crate::field::lemma_modp_small(1);
    crate::field::lemma_modp_small(2);
    crate::field::lemma_modp_small(3);
    let m1 = seq![4int, loadstore_read_ptr(cols, ins, pointer), modp(ts + iv)] + vals(data_read);
    assert(m1[1] == loadstore_read_ptr(cols, ins, pointer) && m1[2] == modp(ts + iv));
    let m2 = seq![4int, cols.data_write_pointer.val(), modp(ts + iv + (iv - hv))] + vals(data_write);
    assert(m2[1] == cols.data_write_pointer.val() && m2[2] == modp(ts + iv + (iv - hv)));
    let m0 = seq![4int, cols.c.val(), ts] + vals(seq![pointer]);
    assert(m0[1] == cols.c.val() && m0[2] == ts);
    let m3 = seq![ins.opcode.val()] + vals(seq![cols.a, cols.b, cols.c, BabyBear { v: 4 }, BabyBear { v: 4 }])
        + seq![
        cols.from_pc.val(),
        ts,
        match to_pc {
            Some(p) => p.val(),
            None => modp(cols.from_pc.val() + 4),
        },
        modp(ts + loadstore_delta(ins)),
    ];
    assert(m3[8] == match to_pc {
        Some(p) => p.val(),
        None => modp(cols.from_pc.val() + 4),
    });
    assert(m3[9] == modp(ts + loadstore_delta(ins)));
    assert(loadstore_delta(ins) == if local == 2 { 2int } else { 3int });
    if local == 0 {
        assert(loadstore_read_ptr(cols, ins, pointer) == modp(pointer.val() + cols.b.val()));
        assert(modp(1 * cols.data_write_pointer.val()) == modp(1 * cols.a.val() + 0 * (pointer.val() + cols.b.val())));
    } else {
        assert(modp(1 * cols.data_write_pointer.val()) == modp(0 * cols.a.val() + 1 * (pointer.val() + cols.b.val())));
        if local == 1 {
            assert(loadstore_read_ptr(cols, ins, pointer) == modp(cols.a.val()));
        }
    }
}

} // verus!
