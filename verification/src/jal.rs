//! The chip of `JAL` (jump and link) and `RANGE_CHECK`: two unrelated opcodes that share one
//! chip to save columns.
use crate::conversion::Instruction;
use crate::field::{modp, BabyBear, BABY_BEAR_P};
use crate::machine::{cell, written, ExecutionError, ExecutionState, Memory};
use crate::opcodes::{NativeJalOpcode, NativeRangeCheckOpcode, DEFAULT_PC_STEP};
use vstd::arithmetic::power2::pow2;
use crate::bus::{interaction, is_interaction, Bus, Interaction};
use vstd::prelude::*;
use vstd::string::StringExecFns;

verus! {

/// The native address space.
/// The number of columns of the chip's trace, auxiliary columns included.
pub const OVERALL_WIDTH: usize = 12;

pub const NATIVE_AS: u32 = 4u32;

/// What one execution of the chip recorded: the state it started from, the cell it wrote
/// (its pointer, the value it held before and the value written), and the operands.
#[derive(Clone, Copy, Debug)]
pub struct JalRangeCheckRecord {
    pub state: ExecutionState,
    pub a_pointer: u32,
    pub a_prev: BabyBear,
    pub a_value: BabyBear,
    pub b: u32,
    pub c: u8,
    pub is_jal: bool,
}

/// The chip: its records, and whether execution errors are ignored.
pub struct JalRangeCheckChip {
    pub records: Vec<JalRangeCheckRecord>,
    /// If true, failed range checks do not stop execution.
    pub debug: bool,
}

/// The lower 16 bits of a range-checked value.
pub open spec fn low16(v: u32) -> int {
    v as int % 0x10000
}

/// The upper bits of a range-checked value.
pub open spec fn high16(v: u32) -> int {
    v as int / 0x10000
}

/// The outcome of one instruction of the chip.
pub open spec fn jal_range_check_spec(
    mem_value: BabyBear,
    instruction: Instruction,
    from_state: ExecutionState,
    debug: bool,
) -> Result<ExecutionState, ExecutionError> {
    if instruction.opcode.v == 0x115 {
        Ok(
            ExecutionState {
                pc: modp(from_state.pc + instruction.b.val()) as u32,
                timestamp: (from_state.timestamp + 1) as u32,
            },
        )
    } else if !debug && low16(mem_value.v) >= pow2(instruction.b.v as nat) {
        Err(ExecutionError::Fail { pc: from_state.pc })
    } else if !debug && high16(mem_value.v) >= pow2(instruction.c.v as nat) {
        Err(ExecutionError::Fail { pc: from_state.pc })
    } else {
        Ok(
            ExecutionState {
                pc: (from_state.pc + DEFAULT_PC_STEP) as u32,
                timestamp: (from_state.timestamp + 1) as u32,
            },
        )
    }
}

impl JalRangeCheckChip {
    /// The name of the jump or of the range check, by their global numbers.
    pub fn get_opcode_name(&self, opcode: usize) -> (r: String)
        requires
            opcode == NativeJalOpcode::CLASS_OFFSET || opcode == NativeRangeCheckOpcode::CLASS_OFFSET,
        ensures
            opcode == NativeJalOpcode::CLASS_OFFSET ==> r@ == "JAL"@,
            opcode == NativeRangeCheckOpcode::CLASS_OFFSET ==> r@ == "RANGE_CHECK"@,
    {
        let jal_opcode = NativeJalOpcode::JAL.global_opcode().as_usize();
        if opcode == jal_opcode {
            NativeJalOpcode::JAL.name()
        } else {
            NativeRangeCheckOpcode::RANGE_CHECK.name()
        }
    }

    /// The name of the chip's AIR.
    pub fn air_name(&self) -> (r: String)
        ensures
            r@ == "JalRangeCheck"@,
    {
        String::from_str("JalRangeCheck")
    }

    /// One trace row per executed instruction.
    pub fn current_trace_height(&self) -> (r: usize)
        ensures
            r == self.records@.len(),
    {
        self.records.len()
    }

    /// The number of columns of a trace row, auxiliary columns included.
    pub fn trace_width(&self) -> (r: usize)
        ensures
            r == OVERALL_WIDTH,
    {
        OVERALL_WIDTH
    }

    pub fn new() -> (r: Self)
        ensures
            r.records@.len() == 0,
            !r.debug,
    {
        JalRangeCheckChip { records: Vec::new(), debug: false }
    }

    /// The same chip, ignoring execution errors.
    pub fn with_debug(self) -> (r: Self)
        ensures
            r.records@ == self.records@,
            r.debug,
    {
        let mut r = self;
        r.debug = true;
        r
    }

    /// Executes `JAL` (`mem[a] <- pc + 4; pc <- pc + b`) or `RANGE_CHECK` (rewrites `mem[a]`
    /// and checks that its low 16 bits are below `2^b` and the rest below `2^c`).
    pub fn execute(
        &mut self,
        memory: &mut Memory,
        instruction: &Instruction,
        from_state: ExecutionState,
    ) -> (r: Result<ExecutionState, ExecutionError>)
        requires
            instruction.opcode.v == 0x115 || instruction.opcode.v == 0x120,
            from_state.pc + DEFAULT_PC_STEP < BABY_BEAR_P,
            old(memory)@.timestamp == from_state.timestamp,
            from_state.timestamp < 0xffff_ffff,
            instruction.opcode.v == 0x120 ==> instruction.b.v < 32 && instruction.c.v < 32,
            instruction.opcode.v == 0x120 && old(self).debug ==> instruction.b.v <= 16
                && instruction.c.v <= 14,
        ensures
            r == jal_range_check_spec(
                cell(old(memory)@, NATIVE_AS, instruction.a.v as int),
                *instruction,
                from_state,
                old(self).debug,
            ),
            written(
                old(memory)@,
                final(memory)@,
                NATIVE_AS,
                instruction.a.v as int,
                seq![
                    if instruction.opcode.v == 0x115 {
                        BabyBear { v: (from_state.pc + DEFAULT_PC_STEP) as u32 }
                    } else {
                        cell(old(memory)@, NATIVE_AS, instruction.a.v as int)
                    },
                ],
            ),
            final(memory)@.timestamp == old(memory)@.timestamp + 1,
            final(self).debug == old(self).debug,
            r is Ok ==> final(self).records@ == old(self).records@.push(
                JalRangeCheckRecord {
                    state: from_state,
                    a_pointer: instruction.a.v,
                    a_prev: cell(old(memory)@, NATIVE_AS, instruction.a.v as int),
                    a_value: if instruction.opcode.v == 0x115 {
                        BabyBear { v: (from_state.pc + DEFAULT_PC_STEP) as u32 }
                    } else {
                        cell(old(memory)@, NATIVE_AS, instruction.a.v as int)
                    },
                    b: instruction.b.v,
                    c: if instruction.opcode.v == 0x115 {
                        0u8
                    } else {
                        instruction.c.v as u8
                    },
                    is_jal: instruction.opcode.v == 0x115,
                },
            ),
            r is Err ==> final(self).records@ == old(self).records@,
    {
        if instruction.opcode == NativeJalOpcode::JAL.global_opcode() {
            let value = BabyBear::from_canonical_u32(from_state.pc + DEFAULT_PC_STEP);
            let data = [value];
            let prev = memory.write(NATIVE_AS, instruction.a.as_canonical_u32(), &data);
            let b = instruction.b.as_canonical_u32();
            self.records.push(
                JalRangeCheckRecord {
                    state: from_state,
                    a_pointer: instruction.a.as_canonical_u32(),
                    a_prev: prev[0],
                    a_value: value,
                    b,
                    c: 0,
                    is_jal: true,
                },
            );
            let pc = BabyBear::from_canonical_u32(from_state.pc).add(instruction.b);
            return Ok(ExecutionState { pc: pc.as_canonical_u32(), timestamp: memory.timestamp() });
        }
        assert(instruction.opcode.v == 0x120);
        let a_val = memory.unsafe_read_cell(NATIVE_AS, instruction.a.as_canonical_u32());
        let data = [a_val];
        memory.write(NATIVE_AS, instruction.a.as_canonical_u32(), &data);
        let v = a_val.as_canonical_u32();
        let b = instruction.b.as_canonical_u32();
        let c = instruction.c.as_canonical_u32();
        let x = v & 0xffff;
        let y = v >> 16u32;
        proof {
            assert(x == v % 0x10000) by (bit_vector)
                requires
                    x == v & 0xffff,
            ;
            assert(y == v / 0x10000) by (bit_vector)
                requires
                    y == v >> 16u32,
            ;
            vstd::bits::lemma_u32_pow2_no_overflow(b as nat);
            vstd::bits::lemma_u32_pow2_no_overflow(c as nat);
            vstd::bits::lemma_u32_shl_is_mul(1, b);
            vstd::bits::lemma_u32_shl_is_mul(1, c);
        }
        if !self.debug && x >= (1u32 << b) {
            return Err(ExecutionError::Fail { pc: from_state.pc });
        }
        if !self.debug && y >= (1u32 << c) {
            return Err(ExecutionError::Fail { pc: from_state.pc });
        }
        self.records.push(
            JalRangeCheckRecord {
                state: from_state,
                a_pointer: instruction.a.as_canonical_u32(),
                a_prev: a_val,
                a_value: a_val,
                b,
                c: c as u8,
                is_jal: false,
            },
        );
        Ok(ExecutionState { pc: from_state.pc + DEFAULT_PC_STEP, timestamp: memory.timestamp() })
    }
}

/// The columns of one row, the memory-checking auxiliary columns aside but for the value the
/// written cell held before (`a_prev`).
#[derive(Clone, Copy, Debug)]
pub struct JalRangeCheckCols {
    pub is_jal: BabyBear,
    pub is_range_check: BabyBear,
    pub a_pointer: BabyBear,
    pub pc: BabyBear,
    pub timestamp: BabyBear,
    pub a_prev: BabyBear,
    pub b: BabyBear,
    pub c: BabyBear,
    pub y: BabyBear,
}

/// `r` is the row of `record`: the flags of its kind, the pointer and state, the previous value
/// of the cell, the operand `b`, and for a range check the bound `c` and the high part `y` of
/// the checked value (zero for a jump).
pub open spec fn jal_row_of(record: JalRangeCheckRecord, r: JalRangeCheckCols) -> bool {
    &&& r.is_jal.v == (if record.is_jal { 1u32 } else { 0u32 })
    &&& r.is_range_check.v == (if record.is_jal { 0u32 } else { 1u32 })
    &&& r.a_pointer.val() == modp(record.a_pointer as int)
    &&& r.pc.val() == modp(record.state.pc as int)
    &&& r.timestamp.val() == modp(record.state.timestamp as int)
    &&& r.a_prev == record.a_prev
    &&& r.b.val() == modp(record.b as int)
    &&& r.c.v == (if record.is_jal { 0u32 } else { record.c as u32 })
    &&& r.y.v == (if record.is_jal { 0u32 } else { high16(record.a_value.v) as u32 })
}

/// The polynomial constraints of the AIR on a row: both flags and their sum are boolean, and a
/// jump has `c = 0`.
pub open spec fn jal_air_ok(r: JalRangeCheckCols) -> bool {
    let j = r.is_jal.val();
    let k = r.is_range_check.val();
    &&& modp(j * (j - 1)) == 0
    &&& modp(k * (k - 1)) == 0
    &&& modp((j + k) * (j + k - 1)) == 0
    &&& modp(j * r.c.val()) == 0
}

/// What the AIR derives from a row for its bus interactions: the value written, the opcode,
/// the increment of the program counter, and the low part `x = a_prev - y 2^16` sent to the
/// range checker.
pub struct JalRangeCheckRowEval {
    pub constraints_ok: bool,
    pub write_val: BabyBear,
    pub opcode: BabyBear,
    pub pc_inc: BabyBear,
    pub x: BabyBear,
    /// The messages of the row: the write of `[a]`, the execution of the instruction, and the
    /// range checks of `x` on `b` bits and `y` on `c` bits (range-check rows only).
    pub interactions: Vec<Interaction>,
}

/// The AIR of the chip.
pub struct JalRangeCheckAir;

impl JalRangeCheckAir {
    /// Evaluates the constraints of a row and the values of its interactions.
    pub fn eval(&self, r: &JalRangeCheckCols) -> (e: JalRangeCheckRowEval)
        ensures
            e.constraints_ok == jal_air_ok(*r),
            e.write_val.val() == modp(
                r.is_jal.val() * (r.pc.val() + 4) + r.is_range_check.val() * r.a_prev.val(),
            ),
            e.opcode.val() == modp(r.is_jal.val() * 0x115 + r.is_range_check.val() * 0x120),
            e.pc_inc.val() == modp(r.is_jal.val() * r.b.val() + r.is_range_check.val() * 4),
            e.x.val() == modp(r.a_prev.val() - r.y.val() * 65536),
            e.interactions@.len() == 4,
            is_interaction(
                e.interactions@[0],
                Bus::MemoryWrite,
                modp(r.is_jal.val() + r.is_range_check.val()),
                seq![NATIVE_AS as int, r.a_pointer.val(), r.timestamp.val(), e.write_val.val()],
            ),
            is_interaction(
                e.interactions@[1],
                Bus::Execution,
                modp(r.is_jal.val() + r.is_range_check.val()),
                seq![
                    e.opcode.val(),
                    r.a_pointer.val(),
                    r.b.val(),
                    r.c.val(),
                    NATIVE_AS as int,
                    r.pc.val(),
                    r.timestamp.val(),
                    modp(r.pc.val() + e.pc_inc.val()),
                    modp(r.timestamp.val() + 1),
                ],
            ),
            is_interaction(
                e.interactions@[2],
                Bus::RangeCheck,
                r.is_range_check.val(),
                seq![e.x.val(), r.b.val()],
            ),
            is_interaction(
                e.interactions@[3],
                Bus::RangeCheck,
                r.is_range_check.val(),
                seq![r.y.val(), r.c.val()],
            ),
    {
        let one = BabyBear::one();
        let j = r.is_jal;
        let k = r.is_range_check;
        let jk = j.add(k);
        let j1 = j.sub(one);
        let k1 = k.sub(one);
        let jk1 = jk.sub(one);
        let b1 = j.mul(j1);
        let b2 = k.mul(k1);
        let b3 = jk.mul(jk1);
        let b4 = j.mul(r.c);
        let four = BabyBear::from_canonical_u32(4);
        let pc4 = r.pc.add(four);
        let t1 = j.mul(pc4);
        let t2 = k.mul(r.a_prev);
        let write_val = t1.add(t2);
        let o1 = j.mul(BabyBear::from_canonical_u32(0x115));
        let o2 = k.mul(BabyBear::from_canonical_u32(0x120));
        let opcode = o1.add(o2);
        let p1 = j.mul(r.b);
        let p2 = k.mul(four);
        let pc_inc = p1.add(p2);
        let y16 = r.y.mul(BabyBear::from_canonical_u32(65536));
        let x = r.a_prev.sub(y16);
        proof {
            let (jv, kv) = (j.val(), k.val());
            crate::field::lemma_modp_small(1);
            crate::field::lemma_modp_small(4);
            crate::field::lemma_modp_small(0x115);
            crate::field::lemma_modp_small(0x120);
            crate::field::lemma_modp_small(65536);
            crate::field::lemma_modp_basics(jv - 1);
            crate::field::lemma_modp_basics(kv - 1);
            crate::field::lemma_modp_basics(jv + kv);
            crate::field::lemma_eqm_mul(jv, jv, j1.val(), jv - 1);
            crate::field::lemma_eqm_mul(kv, kv, k1.val(), kv - 1);
            crate::field::lemma_eqm_sub(jk.val(), jv + kv, 1, 1);
            crate::field::lemma_modp_basics(jv + kv - 1);
            crate::field::lemma_eqm_mul(jk.val(), jv + kv, jk1.val(), jv + kv - 1);
            crate::field::lemma_modp_small(b1.val());
            crate::field::lemma_modp_small(b2.val());
            crate::field::lemma_modp_small(b3.val());
            crate::field::lemma_modp_small(b4.val());
            let pcv = r.pc.val() + 4;
            crate::field::lemma_modp_basics(pcv);
            crate::field::lemma_eqm_mul(jv, jv, pc4.val(), pcv);
            crate::field::lemma_modp_basics(jv * pcv);
            crate::field::lemma_modp_basics(kv * r.a_prev.val());
            crate::field::lemma_eqm_add(t1.val(), jv * pcv, t2.val(), kv * r.a_prev.val());
            crate::field::lemma_modp_basics(jv * 0x115);
            crate::field::lemma_modp_basics(kv * 0x120);
            crate::field::lemma_eqm_add(o1.val(), jv * 0x115, o2.val(), kv * 0x120);
            crate::field::lemma_modp_basics(jv * r.b.val());
            crate::field::lemma_modp_basics(kv * 4);
            crate::field::lemma_eqm_add(p1.val(), jv * r.b.val(), p2.val(), kv * 4);
            crate::field::lemma_modp_basics(r.y.val() * 65536);
            crate::field::lemma_eqm_sub(
                r.a_prev.val(),
                r.a_prev.val(),
                y16.val(),
                r.y.val() * 65536,
            );
        }
        let d = BabyBear::from_canonical_u32(NATIVE_AS);
        let next_pc = r.pc.add(pc_inc);
        let next_ts = r.timestamp.add(one);
        let mut interactions: Vec<Interaction> = Vec::new();
        interactions.push(interaction(Bus::MemoryWrite, jk, vec![d, r.a_pointer, r.timestamp, write_val]));
        interactions.push(
            interaction(
                Bus::Execution,
                jk,
                vec![opcode, r.a_pointer, r.b, r.c, d, r.pc, r.timestamp, next_pc, next_ts],
            ),
        );
        interactions.push(interaction(Bus::RangeCheck, k, vec![x, r.b]));
        interactions.push(interaction(Bus::RangeCheck, k, vec![r.y, r.c]));
        JalRangeCheckRowEval {
            constraints_ok: b1.v == 0 && b2.v == 0 && b3.v == 0 && b4.v == 0,
            write_val,
            opcode,
            pc_inc,
            x,
            interactions,
        }
    }
}

impl JalRangeCheckChip {
    /// The row of a record, and the range checks it requests: `(x, b)` and `(y, c)` for a range
    /// check of the value `x + y 2^16`, none for a jump.
    pub fn generate_trace_row(record: &JalRangeCheckRecord) -> (r: (
        JalRangeCheckCols,
        Vec<(u32, usize)>,
    ))
        ensures
            jal_row_of(*record, r.0),
            record.is_jal ==> r.1@.len() == 0,
            !record.is_jal ==> r.1@ == seq![
                (low16(record.a_value.v) as u32, record.b as usize),
                (high16(record.a_value.v) as u32, record.c as usize),
            ],
    {
        let z = BabyBear::zero();
        let mut checks: Vec<(u32, usize)> = Vec::new();
        let mut cols = JalRangeCheckCols {
            is_jal: if record.is_jal {
                BabyBear::one()
            } else {
                z
            },
            is_range_check: if record.is_jal {
                z
            } else {
                BabyBear::one()
            },
            a_pointer: BabyBear::from_wrapped_u32(record.a_pointer),
            pc: BabyBear::from_wrapped_u32(record.state.pc),
            timestamp: BabyBear::from_wrapped_u32(record.state.timestamp),
            a_prev: record.a_prev,
            b: BabyBear::from_wrapped_u32(record.b),
            c: z,
            y: z,
        };
        if !record.is_jal {
            let v = record.a_value.v;
            let y = v >> 16u32;
            let x = v & 0xffff;
            proof {
                assert(x == v % 0x10000) by (bit_vector)
                    requires
                        x == v & 0xffff,
                ;
                assert(y == v / 0x10000) by (bit_vector)
                    requires
                        y == v >> 16u32,
                ;
            }
            checks.push((x, record.b as usize));
            checks.push((y, record.c as usize));
            cols.c = BabyBear { v: record.c as u32 };
            cols.y = BabyBear { v: y };
        }
        (cols, checks)
    }
}

/// The row of a recorded instruction satisfies the constraints of the AIR, and the values of its
/// interactions are those of the execution: the value written (the return address of a jump,
/// the unchanged value of a range check), the opcode, the increment of the program counter
/// (`b` for a jump, 4 for a range check), and for a range check the low part of the checked
/// value, whose parts the execution bounded by `2^b` and `2^c`.
pub proof fn lemma_jal_row_satisfies_air(record: JalRangeCheckRecord, r: JalRangeCheckCols)
    requires
        jal_row_of(record, r),
        record.is_jal ==> record.a_value.val() == record.state.pc + 4,
        !record.is_jal ==> record.a_prev == record.a_value,
        record.a_value.v < BABY_BEAR_P,
        record.state.pc + 4 < BABY_BEAR_P,
    ensures
        jal_air_ok(r),
        modp(r.is_jal.val() * (r.pc.val() + 4) + r.is_range_check.val() * r.a_prev.val())
            == record.a_value.val(),
        modp(r.is_jal.val() * 0x115 + r.is_range_check.val() * 0x120) == (if record.is_jal {
            0x115int
        } else {
            0x120int
        }),
        modp(r.is_jal.val() * r.b.val() + r.is_range_check.val() * 4) == (if record.is_jal {
            modp(record.b as int)
        } else {
            4int
        }),
        !record.is_jal ==> modp(r.a_prev.val() - r.y.val() * 65536) == low16(record.a_value.v),
{
    crate::field::lemma_modp_small(0);
    crate::field::lemma_modp_small(4);
    crate::field::lemma_modp_small(0x115);
    crate::field::lemma_modp_small(0x120);
    crate::field::lemma_modp_small(record.a_value.val());
    crate::field::lemma_modp_basics(record.b as int);
    crate::field::lemma_modp_small(record.state.pc + 4);
    if record.is_jal {
        assert(r.is_jal.val() == 1 && r.is_range_check.val() == 0);
        assert(r.c.val() == 0);
        crate::field::lemma_modp_small(record.state.pc as int);
        assert(r.pc.val() == record.state.pc);
    } else {
        assert(r.is_jal.val() == 0 && r.is_range_check.val() == 1);
        let v = record.a_value.v as int;
        assert(v == (v / 0x10000) * 0x10000 + v % 0x10000) by (nonlinear_arith);
        crate::field::lemma_modp_small(v % 0x10000);
    }
}

/// A range-check row whose two range checks the range checker accepts (the low part `x` it
/// sends below `2^b`, the high part `y` below `2^c`, with `b <= 16` and `c <= 14`, the bounds the
/// chip executes with) checks a value that is exactly `x + y 2^16`: the row ties the checked
/// value to the two bounds.
pub proof fn lemma_range_check_row_sound(r: JalRangeCheckCols, x: BabyBear)
    requires
        r.a_prev.v < BABY_BEAR_P,
        x.val() == modp(r.a_prev.val() - r.y.val() * 65536),
        x.val() < pow2(r.b.val() as nat),
        r.y.val() < pow2(r.c.val() as nat),
        r.b.val() <= 16,
        r.c.val() <= 14,
    ensures
        r.a_prev.val() == x.val() + r.y.val() * 65536,
        low16(r.a_prev.v) == x.val(),
        high16(r.a_prev.v) == r.y.val(),
{
    vstd::arithmetic::power2::lemma2_to64();
    if r.b.val() < 16 {
        vstd::arithmetic::power2::lemma_pow2_strictly_increases(r.b.val() as nat, 16);
    }
    if r.c.val() < 14 {
        vstd::arithmetic::power2::lemma_pow2_strictly_increases(r.c.val() as nat, 14);
    }
    assert(x.val() < 65536);
    assert(r.y.val() < 16384);
    let d = r.a_prev.val() - r.y.val() * 65536;
    assert(r.y.val() * 65536 < 16384 * 65536) by (nonlinear_arith)
        requires
            0 <= r.y.val() < 16384,
    ;
    if d >= 0 {
        crate::field::lemma_modp_small(d);
    } else {
        assert(0 <= d + BABY_BEAR_P < BABY_BEAR_P);
        crate::field::lemma_modp_small(d + BABY_BEAR_P);
        vstd::arithmetic::div_mod::lemma_mod_add_multiples_vanish(d, BABY_BEAR_P as int);
        assert(modp(d + BABY_BEAR_P) == modp(d));
    }
    let v = r.a_prev.val();
    assert(v % 0x10000 == x.val() && v / 0x10000 == r.y.val()) by (nonlinear_arith)
        requires
            v == x.val() + r.y.val() * 65536,
            0 <= x.val() < 65536,
            0 <= r.y.val(),
    ;
}

} // verus!
