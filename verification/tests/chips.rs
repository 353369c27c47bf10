use std::collections::VecDeque;

use openvm_native::alu::{AluNativeAdapterAir, AluNativeAdapterChip};
use openvm_native::bus::Bus;
use openvm_native::chips::{
    CastF, CastFCoreAir, CastFCoreChip, FieldExtensionCoreAir, FieldExtensionCoreChip,
};
use openvm_native::conversion::Instruction;
use openvm_native::extension::FieldExtension;
use openvm_native::field::BabyBear;
use openvm_native::fri::{
    next_power_of_two_or_zero, FriReducedOpeningAir, FriReducedOpeningChip,
};
use openvm_native::jal::{JalRangeCheckAir, JalRangeCheckChip};
use openvm_native::loadstore::{
    NativeLoadStoreAdapterAir, NativeLoadStoreAdapterChip, NativeLoadStoreChip, NativeLoadStoreCoreAir,
    NativeLoadStoreCoreCols,
};
use openvm_native::machine::{ExecutionError, ExecutionState, Memory, Streams};
use openvm_native::native::{
    Native, NativeExecutor, NativeHintBitsSubEx, NativeHintInputSubEx, NativePhantomExecutor,
    VmInventoryBuilder, VmInventoryError,
    NativePrintSubEx,
};
use openvm_native::opcodes::VmOpcode;
use openvm_native::poseidon2::{NativePoseidon2Air, NativePoseidon2BaseChip, NativePoseidon2Chip, NativePoseidon2MemoryCols};

const P: u32 = 2013265921;
const NATIVE: u32 = 4;

fn bb(v: u32) -> BabyBear {
    BabyBear { v }
}

fn instruction(opcode: usize, a: u32, b: u32, c: u32, d: u32, e: u32, f: u32, g: u32) -> Instruction {
    Instruction {
        opcode: VmOpcode { v: opcode },
        a: bb(a),
        b: bb(b),
        c: bb(c),
        d: bb(d),
        e: bb(e),
        f: bb(f),
        g: bb(g),
    }
}

fn write(memory: &mut Memory, space: u32, ptr: u32, data: &[u32]) {
    let values: Vec<BabyBear> = data.iter().map(|&v| bb(v)).collect();
    memory.write(space, ptr, &values);
}

fn read(memory: &Memory, space: u32, ptr: u32, n: u32) -> Vec<u32> {
    (0..n).map(|i| memory.unsafe_read_cell(space, ptr + i).v).collect()
}

fn state(pc: u32, timestamp: u32) -> ExecutionState {
    ExecutionState { pc, timestamp }
}

// ---------------------------------------------------------------------------------------------
// Memory.
// ---------------------------------------------------------------------------------------------

#[test]
fn memory_reads_what_was_written() {
    let mut memory = Memory::new(1);
    assert_eq!(memory.timestamp(), 1);
    assert_eq!(read(&memory, NATIVE, 10, 2), vec![0, 0]);
    let prev = memory.write(NATIVE, 10, &[bb(5), bb(6)]);
    assert_eq!(prev, vec![bb(0), bb(0)]);
    assert_eq!(memory.timestamp(), 2);
    assert_eq!(memory.read(NATIVE, 10, 2), vec![bb(5), bb(6)]);
    assert_eq!(memory.read_cell(NATIVE, 11), bb(6));
    assert_eq!(memory.timestamp(), 4);
    // other address spaces are untouched
    assert_eq!(memory.unsafe_read_cell(3, 10), bb(0));
    memory.increment_timestamp();
    assert_eq!(memory.timestamp(), 5);
}

// ---------------------------------------------------------------------------------------------
// Cast.
// ---------------------------------------------------------------------------------------------

#[test]
fn castf_splits_into_little_endian_bytes() {
    assert_eq!(CastF::solve(0x12345678), [0x78, 0x56, 0x34, 0x12]);
    assert_eq!(CastF::solve(0), [0, 0, 0, 0]);
    assert_eq!(CastF::solve(P - 1), [0, 0, 0, 0x78]);
}

#[test]
fn castf_row_satisfies_its_constraints() {
    let chip = CastFCoreChip;
    let (writes, record) = chip.execute_instruction(VmOpcode { v: 0x125 }, bb(0x01020304));
    assert_eq!(writes.map(|x| x.v), [4, 3, 2, 1]);
    let (row, checks) = chip.generate_trace_row(&record);
    assert_eq!(checks, vec![(4, 8), (3, 8), (2, 8), (1, 6)]);
    let (ok, sent) = CastFCoreAir.eval(&row);
    assert!(ok);
    assert_eq!(sent, vec![(bb(4), 8), (bb(3), 8), (bb(2), 8), (bb(1), 6)]);
    let mut bad = row;
    bad.out_val[0] = bb(5);
    assert!(!CastFCoreAir.eval(&bad).0);
}

// ---------------------------------------------------------------------------------------------
// Field extension chip.
// ---------------------------------------------------------------------------------------------

#[test]
fn field_extension_rows_satisfy_the_air() {
    let chip = FieldExtensionCoreChip { offset: 0x140 };
    let air = FieldExtensionCoreAir { offset: 0x140 };
    let y = [bb(1), bb(2), bb(3), bb(4)];
    let z = [bb(5), bb(6), bb(7), bb(8)];
    for local in 0..4usize {
        let (x, record) = chip.execute_instruction(VmOpcode { v: 0x140 + local }, y, z);
        let expected = match local {
            0 => FieldExtension::add(y, z),
            1 => FieldExtension::subtract(y, z),
            2 => FieldExtension::multiply(y, z),
            _ => FieldExtension::divide(y, z),
        };
        assert_eq!(x, expected);
        let row = chip.generate_trace_row(&record);
        let (ok, is_valid, opcode) = air.eval(&row);
        assert!(ok);
        assert_eq!(is_valid.v, 1);
        assert_eq!(opcode.v as usize, 0x140 + local);
    }
    let (_, record) = chip.execute_instruction(VmOpcode { v: 0x140 }, y, z);
    let mut row = chip.generate_trace_row(&record);
    row.x[2] = row.x[2].add(bb(1));
    assert!(!air.eval(&row).0);
}

// ---------------------------------------------------------------------------------------------
// JAL and range check.
// ---------------------------------------------------------------------------------------------

#[test]
fn jal_writes_the_return_address_and_jumps() {
    let mut chip = JalRangeCheckChip::new();
    let mut memory = Memory::new(0);
    let ins = instruction(0x115, 7, 40, 0, NATIVE, 0, 0, 0);
    let r = chip.execute(&mut memory, &ins, state(100, 0));
    assert_eq!(r, Ok(state(140, 1)));
    assert_eq!(memory.unsafe_read_cell(NATIVE, 7), bb(104));
    // a negative jump wraps through the field
    let ins = instruction(0x115, 7, P - 8, 0, NATIVE, 0, 0, 0);
    assert_eq!(chip.execute(&mut memory, &ins, state(100, 1)), Ok(state(92, 2)));
}

#[test]
fn range_check_accepts_values_in_range() {
    let mut chip = JalRangeCheckChip::new();
    let mut memory = Memory::new(0);
    write(&mut memory, NATIVE, 3, &[(5 << 16) | 0xff]);
    let ins = instruction(0x120, 3, 8, 3, NATIVE, 0, 0, 0);
    assert_eq!(chip.execute(&mut memory, &ins, state(16, 1)), Ok(state(20, 2)));
    assert_eq!(memory.unsafe_read_cell(NATIVE, 3), bb((5 << 16) | 0xff));
}

#[test]
fn range_check_fails_on_values_out_of_range() {
    let mut chip = JalRangeCheckChip::new();
    let mut memory = Memory::new(0);
    write(&mut memory, NATIVE, 3, &[0x100]);
    let ins = instruction(0x120, 3, 8, 3, NATIVE, 0, 0, 0);
    assert_eq!(chip.execute(&mut memory, &ins, state(16, 1)), Err(ExecutionError::Fail { pc: 16 }));
    write(&mut memory, NATIVE, 4, &[8 << 16]);
    let ins = instruction(0x120, 4, 16, 3, NATIVE, 0, 0, 0);
    assert_eq!(chip.execute(&mut memory, &ins, state(20, 3)), Err(ExecutionError::Fail { pc: 20 }));
    // with debug on, the same check passes
    let mut chip = JalRangeCheckChip::new().with_debug();
    let ins = instruction(0x120, 4, 16, 3, NATIVE, 0, 0, 0);
    assert_eq!(chip.execute(&mut memory, &ins, state(20, 4)), Ok(state(24, 5)));
}

#[test]
fn jal_and_range_check_rows_satisfy_the_air() {
    let mut chip = JalRangeCheckChip::new();
    let mut memory = Memory::new(0);
    write(&mut memory, NATIVE, 3, &[(5 << 16) | 0xff]);
    let ts = memory.timestamp();
    chip.execute(&mut memory, &instruction(0x115, 7, 40, 0, NATIVE, 0, 0, 0), state(100, ts));
    chip.execute(&mut memory, &instruction(0x120, 3, 8, 3, NATIVE, 0, 0, 0), state(140, ts + 1));
    assert_eq!(chip.records.len(), 2);
    let air = JalRangeCheckAir;

    let (row, checks) = JalRangeCheckChip::generate_trace_row(&chip.records[0]);
    assert!(checks.is_empty());
    let e = air.eval(&row);
    assert!(e.constraints_ok);
    assert_eq!((e.write_val.v, e.opcode.v, e.pc_inc.v), (104, 0x115, 40));

    let (row, checks) = JalRangeCheckChip::generate_trace_row(&chip.records[1]);
    assert_eq!(checks, vec![(0xff, 8), (5, 3)]);
    assert_eq!(row.y.v, 5);
    let e = air.eval(&row);
    assert!(e.constraints_ok);
    assert_eq!((e.write_val.v, e.opcode.v, e.pc_inc.v, e.x.v), ((5 << 16) | 0xff, 0x120, 4, 0xff));
    // the range checks of x on b bits and y on c bits, sent by the range-check row
    assert_eq!((e.interactions[2].bus, e.interactions[2].count.v), (Bus::RangeCheck, 1));
    assert_eq!(e.interactions[2].fields, vec![bb(0xff), bb(8)]);
    assert_eq!(e.interactions[3].fields, vec![bb(5), bb(3)]);
    assert_eq!(e.interactions[0].bus, Bus::MemoryWrite);
    assert_eq!(e.interactions[0].fields, vec![bb(4), bb(3), row.timestamp, bb((5 << 16) | 0xff)]);
    assert_eq!(e.interactions[1].fields[7..], [bb(144), bb(row.timestamp.v + 1)]);

    let mut bad = row;
    bad.is_jal = bb(1);
    assert!(!air.eval(&bad).constraints_ok);
}

#[test]
fn alu_adapter_reads_immediates_and_cells_and_writes_the_result() {
    let mut adapter = AluNativeAdapterChip::new();
    let mut memory = Memory::new(0);
    write(&mut memory, NATIVE, 12, &[99]);
    let ts = memory.timestamp();
    // b = 7 as an immediate (address space 0), c = [12] in the native space
    let ins = instruction(0x130, 20, 7, 12, NATIVE, 0, NATIVE, 0);
    let (reads, read_record) = adapter.preprocess(&mut memory, &ins);
    assert_eq!(reads, [bb(7), bb(99)]);
    assert_eq!(memory.timestamp(), ts + 2);
    let (next, write_record) = adapter.postprocess(&mut memory, &ins, state(40, ts), bb(106), None);
    assert_eq!(next, state(44, ts + 3));
    assert_eq!(memory.unsafe_read_cell(NATIVE, 20), bb(106));
    let row = adapter.generate_trace_row(&read_record, &write_record);
    assert_eq!((row.a_pointer.v, row.b_pointer.v, row.c_pointer.v), (20, 7, 12));
    assert_eq!((row.e_as.v, row.f_as.v, row.from_pc.v), (0, NATIVE, 40));
    let (jump, _) = adapter.postprocess(&mut memory, &ins, state(44, ts + 3), bb(1), Some(8));
    assert_eq!(jump.pc, 8);
    // the AIR: the immediate sends no memory message, the cell read and the write do
    let air = AluNativeAdapterAir;
    let (ok, msgs) = air.eval(&row, bb(1), bb(0x130), [bb(7), bb(99)], bb(106), None);
    assert!(ok);
    assert_eq!(msgs[0].count.v, 0);
    assert_eq!((msgs[1].bus, msgs[1].count.v), (Bus::MemoryRead, 1));
    assert_eq!(msgs[1].fields, vec![bb(NATIVE), bb(12), bb(ts + 1), bb(99)]);
    assert_eq!(msgs[2].fields, vec![bb(NATIVE), bb(20), bb(ts + 2), bb(106)]);
    assert_eq!(
        msgs[3].fields,
        vec![bb(0x130), bb(20), bb(7), bb(12), bb(NATIVE), bb(0), bb(NATIVE), bb(40), bb(ts), bb(44), bb(ts + 3)]
    );
    // an immediate that differs from its pointer is refused
    assert!(!air.eval(&row, bb(1), bb(0x130), [bb(8), bb(99)], bb(106), None).0);
}

// ---------------------------------------------------------------------------------------------
// Load and store.
// ---------------------------------------------------------------------------------------------

fn streams(hints: &[u32]) -> Streams {
    Streams {
        input_stream: VecDeque::new(),
        hint_stream: hints.iter().map(|&v| bb(v)).collect(),
        hint_space: Vec::new(),
    }
}

#[test]
fn loadw_and_storew_move_cells() {
    let mut chip: NativeLoadStoreChip<1> = NativeLoadStoreChip::new(0x100);
    let mut memory = Memory::new(0);
    let mut s = streams(&[]);
    write(&mut memory, NATIVE, 20, &[100]); // pointer
    write(&mut memory, NATIVE, 105, &[77]);
    let ts = memory.timestamp();
    // LOADW: mem[a] <- mem[mem[c] + b]
    let ins = instruction(0x100, 30, 5, 20, NATIVE, NATIVE, 0, 0);
    assert_eq!(chip.execute(&mut memory, &mut s, &ins, state(0, ts)), Ok(state(4, ts + 3)));
    assert_eq!(memory.unsafe_read_cell(NATIVE, 30), bb(77));
    // STOREW: mem[mem[c] + b] <- mem[a]
    let ins = instruction(0x101, 30, 9, 20, NATIVE, NATIVE, 0, 0);
    assert_eq!(chip.execute(&mut memory, &mut s, &ins, state(4, ts + 3)), Ok(state(8, ts + 6)));
    assert_eq!(memory.unsafe_read_cell(NATIVE, 109), bb(77));

    // the adapter rows: the load writes to `a`, the store to the pointer plus `b`
    let core_air: NativeLoadStoreCoreAir<1> = NativeLoadStoreCoreAir { offset: 0x100 };
    let adapter_air: NativeLoadStoreAdapterAir<1> = NativeLoadStoreAdapterAir;
    let load = NativeLoadStoreAdapterChip::generate_trace_row(&chip.adapter_records[0]);
    assert_eq!((load.a.v, load.b.v, load.c.v, load.data_write_pointer.v), (30, 5, 20, 30));
    let flags = NativeLoadStoreCoreCols { is_loadw: bb(1), is_storew: bb(0), is_hint_storew: bb(0), pointer_read: bb(100), data: [bb(77)] };
    let (_, ins_load) = core_air.eval(&flags);
    let (ok, read_ptr, delta, msgs) = adapter_air.eval(&load, &ins_load, bb(100), &[bb(77)], &[bb(77)], None);
    assert!(ok);
    assert_eq!((read_ptr.v, delta.v), (105, 3));
    // the pointer read at the start, the data read one step later, the write one more, and the
    // execution from (pc, ts) to (pc + 4, ts + 3), all in the native address space
    let t = load.from_timestamp.v;
    assert_eq!(msgs.len(), 4);
    assert_eq!((msgs[0].bus, msgs[0].count.v), (Bus::MemoryRead, 1));
    assert_eq!(msgs[0].fields, vec![bb(4), bb(20), bb(t), bb(100)]);
    assert_eq!((msgs[1].bus, msgs[1].count.v), (Bus::MemoryRead, 1));
    assert_eq!(msgs[1].fields, vec![bb(4), bb(105), bb(t + 1), bb(77)]);
    assert_eq!((msgs[2].bus, msgs[2].count.v), (Bus::MemoryWrite, 1));
    assert_eq!(msgs[2].fields, vec![bb(4), bb(30), bb(t + 2), bb(77)]);
    assert_eq!(msgs[3].bus, Bus::Execution);
    assert_eq!(
        msgs[3].fields,
        vec![bb(0x100), bb(30), bb(5), bb(20), bb(4), bb(4), load.from_pc, bb(t), bb(load.from_pc.v + 4), bb(t + 3)]
    );
    let store = NativeLoadStoreAdapterChip::generate_trace_row(&chip.adapter_records[1]);
    assert_eq!(store.data_write_pointer.v, 109);
    let flags = NativeLoadStoreCoreCols { is_loadw: bb(0), is_storew: bb(1), is_hint_storew: bb(0), pointer_read: bb(100), data: [bb(77)] };
    let (_, ins_store) = core_air.eval(&flags);
    let (ok, read_ptr, delta, _) = adapter_air.eval(&store, &ins_store, bb(100), &[bb(77)], &[bb(77)], None);
    assert!(ok);
    assert_eq!((read_ptr.v, delta.v), (30, 3));
    // a wrong write pointer breaks the constraint
    assert!(!adapter_air.eval(&load, &ins_store, bb(100), &[bb(77)], &[bb(77)], None).0);
}

#[test]
fn hint_storew_consumes_hints_or_fails() {
    let mut chip: NativeLoadStoreChip<4> = NativeLoadStoreChip::new(0x108);
    let mut memory = Memory::new(0);
    write(&mut memory, NATIVE, 20, &[200]);
    let ts = memory.timestamp();
    let mut s = streams(&[1, 2, 3, 4, 5]);
    let ins = instruction(0x10a, 0, 0, 20, NATIVE, NATIVE, 0, 0);
    assert_eq!(chip.execute(&mut memory, &mut s, &ins, state(0, ts)), Ok(state(4, ts + 2)));
    assert_eq!(read(&memory, NATIVE, 200, 4), vec![1, 2, 3, 4]);
    assert_eq!(s.hint_stream, VecDeque::from(vec![bb(5)]));
    let r = chip.execute(&mut memory, &mut s, &ins, state(4, ts + 2));
    assert_eq!(r, Err(ExecutionError::HintOutOfBounds { pc: 4 }));
    assert_eq!(s.hint_stream.len(), 1);
}

#[test]
fn loadstore_air_accepts_one_flag() {
    let air: NativeLoadStoreCoreAir<1> = NativeLoadStoreCoreAir { offset: 0x100 };
    let cols = NativeLoadStoreCoreCols { is_loadw: bb(0), is_storew: bb(1), is_hint_storew: bb(0), pointer_read: bb(3), data: [bb(9)] };
    let (ok, ins) = air.eval(&cols);
    assert!(ok);
    assert_eq!(ins.is_valid.v, 1);
    assert_eq!(ins.opcode.v, 0x101);
    let cols = NativeLoadStoreCoreCols { is_loadw: bb(1), is_storew: bb(1), is_hint_storew: bb(0), pointer_read: bb(3), data: [bb(9)] };
    assert!(!air.eval(&cols).0);
}

// ---------------------------------------------------------------------------------------------
// FRI reduced opening.
// ---------------------------------------------------------------------------------------------

fn setup_fri(memory: &mut Memory, len: u32, is_init: u32) {
    // alpha at 10, length at 20, a pointer at 21, b pointer at 22, hint id at 23, flag at 24
    write(memory, NATIVE, 10, &[2, 0, 0, 0]);
    write(memory, NATIVE, 20, &[len]);
    write(memory, NATIVE, 21, &[100]);
    write(memory, NATIVE, 22, &[200]);
    write(memory, NATIVE, 23, &[0]);
    write(memory, NATIVE, 24, &[is_init]);
    if is_init != 0 {
        let a: Vec<u32> = (0..len).map(|i| i + 1).collect();
        write(memory, NATIVE, 100, &a);
    }
    for i in 0..len {
        write(memory, NATIVE, 200 + 4 * i, &[10 * (i + 1), 1, 0, 0]);
    }
}

fn fri_instruction() -> Instruction {
    // (a pointer pointer, b pointer pointer, length, alpha, result, hint id, is_init)
    instruction(0x160, 21, 22, 20, 10, 40, 23, 24)
}

#[test]
fn fri_reduced_opening_sums_scaled_differences() {
    let mut memory = Memory::new(0);
    setup_fri(&mut memory, 3, 1);
    let mut s = streams(&[]);
    let mut chip = FriReducedOpeningChip::new(0x160);
    let ts = memory.timestamp();
    let r = chip.execute(&mut memory, &mut s, &fri_instruction(), state(8, ts));
    assert_eq!(r, state(12, ts + 6 + 2 * 3));
    // sum_i (b_i - a_i) * 2^i with b_i = (10(i+1), 1, 0, 0) and a_i = i + 1:
    // (9 + 36 + 108, 1 + 2 + 4, 0, 0)
    assert_eq!(read(&memory, NATIVE, 40, 4), vec![153, 7, 0, 0]);
    assert_eq!(read(&memory, NATIVE, 100, 3), vec![1, 2, 3]);
    assert_eq!(chip.height, 3);
}

#[test]
fn fri_reduced_opening_takes_base_values_from_hints() {
    let mut memory = Memory::new(0);
    setup_fri(&mut memory, 3, 0);
    let mut s = streams(&[]);
    s.hint_space = vec![vec![bb(1), bb(2), bb(3), bb(77)]];
    let mut chip = FriReducedOpeningChip::new(0x160);
    let ts = memory.timestamp();
    let r = chip.execute(&mut memory, &mut s, &fri_instruction(), state(8, ts));
    assert_eq!(r, state(12, ts + 12));
    assert_eq!(read(&memory, NATIVE, 40, 4), vec![153, 7, 0, 0]);
    // the base values were written into the base array, and consumed from the hints
    assert_eq!(read(&memory, NATIVE, 100, 3), vec![1, 2, 3]);
    assert_eq!(s.hint_space, vec![vec![bb(77)]]);
    assert_eq!(chip.records[0].a_values, vec![bb(1), bb(2), bb(3)]);
}

#[test]
fn fri_trace_satisfies_the_air_and_is_padded() {
    let mut memory = Memory::new(0);
    setup_fri(&mut memory, 3, 1);
    let mut s = streams(&[]);
    let mut chip = FriReducedOpeningChip::new(0x160);
    let ins = fri_instruction();
    let ts = memory.timestamp();
    chip.execute(&mut memory, &mut s, &ins, state(8, ts));
    let ts = memory.timestamp();
    write(&mut memory, NATIVE, 20, &[2]);
    chip.execute(&mut memory, &mut s, &ins, state(12, ts));
    assert_eq!(chip.height, 5);
    let trace = chip.generate_trace();
    assert_eq!(trace.len(), 8);
    let air = FriReducedOpeningAir { offset: 0x160 };
    for k in 0..trace.len() {
        assert!(air.eval(&trace[k], &trace[(k + 1) % trace.len()]).0, "row {}", k);
    }
    assert_eq!(trace[0].idx.v, 0);
    assert_eq!(trace[2].idx.v, 2);
    assert_eq!(trace[3].idx_is_zero.v, 1);
    assert_eq!(trace[4].idx.v, 1);
    for k in 5..8 {
        assert_eq!(trace[k].enabled.v, 0);
        assert_eq!(trace[k].idx_is_zero.v, 1);
    }
    // a tampered running sum breaks the transition into it
    let mut bad = trace.clone();
    bad[1].current[0] = bad[1].current[0].add(bb(1));
    assert!(!air.eval(&bad[0], &bad[1]).0);
    // the last row of the first instruction: execution from (8, ts0) to (12, ts0 + 12), the
    // reads of the operands, the read of a_2 and b_2, and the write of the sum
    let (_, msgs) = air.eval(&trace[2], &trace[3]);
    let t = trace[2].start_timestamp.v;
    assert_eq!(msgs.len(), 10);
    assert_eq!((msgs[0].bus, msgs[0].count.v), (Bus::Execution, 1));
    assert_eq!(
        msgs[0].fields,
        vec![bb(0x160), bb(21), bb(22), bb(20), bb(10), bb(40), bb(23), bb(24), bb(8), bb(t), bb(12), bb(t + 12)]
    );
    assert_eq!(msgs[2].fields, vec![bb(4), bb(20), bb(t + 1), bb(3)]);
    assert_eq!(msgs[5].fields, vec![bb(4), bb(24), bb(t + 4), bb(1)]);
    assert_eq!((msgs[6].bus, msgs[6].count.v), (Bus::MemoryRead, 1));
    assert_eq!(msgs[6].fields, vec![bb(4), bb(102), bb(t + 9), bb(3)]);
    assert_eq!(msgs[7].count.v, 0);
    assert_eq!(msgs[8].fields, vec![bb(4), bb(208), bb(t + 10), bb(30), bb(1), bb(0), bb(0)]);
    assert_eq!(msgs[9].bus, Bus::MemoryWrite);
    assert_eq!(msgs[9].fields, vec![bb(4), bb(40), bb(t + 11), bb(153), bb(7), bb(0), bb(0)]);
    // a row that is not the last of its instruction sends only its own accesses
    let (_, msgs) = air.eval(&trace[0], &trace[1]);
    assert_eq!(msgs[0].count.v, 0);
    assert_eq!(msgs[8].count.v, 1);
}

#[test]
fn powers_of_two_for_trace_heights() {
    assert_eq!(next_power_of_two_or_zero(0), 0);
    assert_eq!(next_power_of_two_or_zero(1), 1);
    assert_eq!(next_power_of_two_or_zero(5), 8);
    assert_eq!(next_power_of_two_or_zero(8), 8);
    assert_eq!(openvm_native::poseidon2::next_power_of_two(0), 1);
    assert_eq!(openvm_native::poseidon2::next_power_of_two(9), 16);
}

// ---------------------------------------------------------------------------------------------
// Poseidon2 memory columns.
// ---------------------------------------------------------------------------------------------

#[test]
fn poseidon2_memory_rows_satisfy_their_constraints() {
    let mut chip: NativePoseidon2BaseChip<0> = NativePoseidon2BaseChip::new(0x150);
    let mut memory = Memory::new(0);
    write(&mut memory, NATIVE, 1, &[1000]);
    write(&mut memory, NATIVE, 2, &[2000]);
    write(&mut memory, NATIVE, 3, &[3000]);
    let ts = memory.timestamp();
    chip.execute(&mut memory, &instruction(0x150, 1, 2, 0, NATIVE, NATIVE, 0, 0), state(0, ts));
    let ts = memory.timestamp();
    chip.execute(&mut memory, &instruction(0x151, 1, 2, 3, NATIVE, NATIVE, 0, 0), state(4, ts));
    let rows = chip.memory_trace();
    assert_eq!(rows.len(), 2);
    assert_eq!(rows[0].opcode_flag.v, 1);
    assert_eq!(rows[0].rs_val, [bb(2000), bb(2008)]);
    assert_eq!(rows[1].opcode_flag.v, 2);
    assert_eq!(rows[1].rs_ptr, [bb(2), bb(3)]);
    assert_eq!(rows[1].rs_val, [bb(2000), bb(3000)]);
    let air = NativePoseidon2Air { offset: 0x150 };
    let input: [BabyBear; 16] = core::array::from_fn(|i| bb(i as u32));
    let output: [BabyBear; 16] = core::array::from_fn(|i| bb(100 + i as u32));
    let (ok, permute, compress, is_valid, opcode, msgs) =
        air.eval_memory_and_execution(&rows[0], &input, &output);
    let t = rows[0].from_timestamp.v;
    assert_eq!(msgs.len(), 8);
    assert_eq!(msgs[0].fields, vec![bb(4), bb(1), bb(t), rows[0].rd_val]);
    assert_eq!((msgs[2].bus, msgs[2].count.v), (Bus::MemoryRead, 0));
    assert_eq!(msgs[3].fields[..4], [bb(4), bb(2000), bb(t + 3), bb(0)]);
    assert_eq!(msgs[4].fields[..4], [bb(4), bb(2008), bb(t + 4), bb(8)]);
    assert_eq!((msgs[6].bus, msgs[6].count.v), (Bus::MemoryWrite, 1));
    assert_eq!(msgs[6].fields[..4], [bb(4), bb(rows[0].rd_val.v + 8), bb(t + 6), bb(108)]);
    assert_eq!(msgs[7].fields[..1], [bb(0x150)]);
    assert_eq!(msgs[7].fields[6..], [bb(0), bb(t), bb(4), bb(t + 7)]);
    assert!(ok);
    assert_eq!((permute.v, compress.v, is_valid.v, opcode.v), (1, 0, 1, 0x150));
    let (ok, permute, compress, is_valid, opcode, msgs) =
        air.eval_memory_and_execution(&rows[1], &input, &output);
    assert_eq!((msgs[2].count.v, msgs[6].count.v), (1, 0));
    assert!(ok);
    assert_eq!((permute.v, compress.v, is_valid.v, opcode.v), (0, 1, 1, 0x151));
    let (ok, permute, compress, is_valid, _, _) =
        air.eval_memory_and_execution(&NativePoseidon2MemoryCols::blank(), &input, &output);
    assert!(ok);
    assert_eq!((permute.v, compress.v, is_valid.v), (0, 0, 0));
    let mut bad = rows[1];
    bad.opcode_flag = bb(3);
    assert!(!air.eval_memory_and_execution(&bad, &input, &output).0);
    let mut bad = rows[1];
    bad.c = bb(4);
    assert!(!air.eval_memory_and_execution(&bad, &input, &output).0);
}

// ---------------------------------------------------------------------------------------------
// The extension's inventory and phantom sub-executors.
// ---------------------------------------------------------------------------------------------

#[test]
fn native_inventory_assigns_each_opcode_once() {
    let mut builder = VmInventoryBuilder { max_constraint_degree: 3, phantom: Vec::new() };
    let inventory = Native.build(&mut builder).unwrap();
    let opcodes: Vec<usize> = inventory.executors.iter().map(|e| e.0).collect();
    for (i, a) in opcodes.iter().enumerate() {
        for b in &opcodes[i + 1..] {
            assert_ne!(a, b);
        }
    }
    let find = |o: usize| inventory.executors.iter().find(|e| e.0 == o).map(|e| e.1);
    assert_eq!(find(0x100), Some(NativeExecutor::LoadStore));
    assert_eq!(find(0x10a), Some(NativeExecutor::BlockLoadStore));
    assert_eq!(find(0x111), Some(NativeExecutor::BranchEqual));
    assert_eq!(find(0x115), Some(NativeExecutor::Jal));
    assert_eq!(find(0x133), Some(NativeExecutor::FieldArithmetic));
    assert_eq!(find(0x143), Some(NativeExecutor::FieldExtension));
    assert_eq!(find(0x151), Some(NativeExecutor::Poseidon2Register1));
    assert_eq!(find(0x160), Some(NativeExecutor::FriReducedOpening));
    assert_eq!(find(0x125), None);
    assert_eq!(
        builder.phantom,
        vec![
            (0x11, NativePhantomExecutor::HintInput),
            (0x12, NativePhantomExecutor::HintBits),
            (0x10, NativePhantomExecutor::Print),
        ]
    );
}

#[test]
fn native_inventory_picks_the_poseidon2_chip_by_degree_and_refuses_taken_phantoms() {
    let mut builder = VmInventoryBuilder { max_constraint_degree: 7, phantom: Vec::new() };
    let inventory = Native.build(&mut builder).unwrap();
    let find = |o: usize| inventory.executors.iter().find(|e| e.0 == o).map(|e| e.1);
    assert_eq!(find(0x150), Some(NativeExecutor::Poseidon2Register0));
    let mut builder = VmInventoryBuilder {
        max_constraint_degree: 7,
        phantom: vec![(0x12, NativePhantomExecutor::Print)],
    };
    assert_eq!(
        Native.build(&mut builder).err(),
        Some(VmInventoryError::PhantomSubExecutorExists { discriminant: 0x12 })
    );
    assert_eq!(
        builder.phantom,
        vec![(0x12, NativePhantomExecutor::Print), (0x11, NativePhantomExecutor::HintInput)]
    );
}

#[test]
fn hint_input_replaces_the_hint_stream() {
    let mut s = Streams { input_stream: VecDeque::new(), hint_stream: VecDeque::new(), hint_space: Vec::new() };
    s.input_stream.push_back(vec![bb(7), bb(8)]);
    s.hint_stream.push_back(bb(99));
    let mut ex = NativeHintInputSubEx;
    assert_eq!(ex.phantom_execute(&mut s), Ok(()));
    assert_eq!(s.hint_stream, VecDeque::from(vec![bb(2), bb(7), bb(8)]));
    assert!(s.input_stream.is_empty());
    assert_eq!(ex.phantom_execute(&mut s), Err(ExecutionError::EndOfInputStream));
}

#[test]
fn hint_bits_and_print_read_a_cell() {
    let mut memory = Memory::new(0);
    write(&mut memory, NATIVE, 5, &[0b1011]);
    let mut s = Streams { input_stream: VecDeque::new(), hint_stream: VecDeque::new(), hint_space: Vec::new() };
    let mut ex = NativeHintBitsSubEx;
    assert_eq!(ex.phantom_execute(&memory, &mut s, bb(5), bb(6), NATIVE as u16), Ok(()));
    assert_eq!(s.hint_stream, VecDeque::from(vec![bb(1), bb(1), bb(0), bb(1), bb(0), bb(0)]));
    let mut pr = NativePrintSubEx;
    assert_eq!(pr.phantom_execute(&memory, bb(5), NATIVE as u16), bb(11));
}

#[test]
fn chips_name_their_opcodes() {
    let ls: NativeLoadStoreChip<1> = NativeLoadStoreChip::new(0x100);
    assert_eq!(ls.get_opcode_name(0x100), "LOADW");
    assert_eq!(ls.get_opcode_name(0x101), "STOREW");
    assert_eq!(ls.get_opcode_name(0x102), "HINT_STOREW");
    let fe = FieldExtensionCoreChip { offset: 0x140 };
    assert_eq!(fe.get_opcode_name(0x140), "FE4ADD");
    assert_eq!(fe.get_opcode_name(0x141), "FE4SUB");
    assert_eq!(fe.get_opcode_name(0x142), "BBE4MUL");
    assert_eq!(fe.get_opcode_name(0x143), "BBE4DIV");
    assert_eq!(CastFCoreChip.get_opcode_name(0x125), "CASTF");
    assert_eq!(FriReducedOpeningChip::new(0x160).get_opcode_name(0x160), "FRI_REDUCED_OPENING");
    let jal = JalRangeCheckChip::new();
    assert_eq!(jal.get_opcode_name(0x115), "JAL");
    assert_eq!(jal.get_opcode_name(0x120), "RANGE_CHECK");
    let p: NativePoseidon2BaseChip<1> = NativePoseidon2BaseChip::new(0x150);
    assert_eq!(p.get_opcode_name(0x150), "PERM_POS2");
    assert_eq!(p.get_opcode_name(0x151), "COMP_POS2");
    let chip = NativePoseidon2Chip::new(0x150, 3);
    assert_eq!(chip.get_opcode_name(0x151), "COMP_POS2");
}

#[test]
fn chips_report_air_names_and_heights() {
    let jal = JalRangeCheckChip::new();
    assert_eq!(jal.air_name(), "JalRangeCheck");
    assert_eq!(jal.current_trace_height(), 0);
    assert_eq!(jal.trace_width(), 12);
    let fri = FriReducedOpeningChip::new(0x160);
    assert_eq!(fri.air_name(), "FriReducedOpeningAir");
    assert_eq!(fri.current_trace_height(), 0);
    let p: NativePoseidon2BaseChip<0> = NativePoseidon2BaseChip::new(0x150);
    assert_eq!(p.current_trace_height(), 0);
    assert_eq!(NativePoseidon2Chip::new(0x150, 7).current_trace_height(), 0);
}
