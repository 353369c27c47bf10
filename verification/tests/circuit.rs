use std::collections::VecDeque;

use openvm_native::bus::{Bus, Interaction};
use openvm_native::chips::{CastF, CastFCoreAir, CastFCoreChip, FieldExtensionCoreAir, FieldExtensionCoreChip};
use openvm_native::conversion::Instruction;
use openvm_native::extension::FieldExtension;
use openvm_native::field::BabyBear;
use openvm_native::fri::{FriReducedOpeningAir, FriReducedOpeningChip, FriReducedOpeningCols};
use openvm_native::jal::{JalRangeCheckAir, JalRangeCheckChip};
use openvm_native::loadstore::NativeLoadStoreChip;
use openvm_native::machine::{ExecutionState, Memory, Streams};
use openvm_native::opcodes::{FieldExtensionOpcode, VmOpcode};
use openvm_stark_backend::p3_field::extension::BinomialExtensionField;
use openvm_stark_backend::p3_field::{BasedVectorSpace, PrimeField32};
use openvm_stark_sdk::p3_baby_bear::BabyBear as P3BabyBear;
use rand::rngs::StdRng;
use rand::{Rng, SeedableRng};

const P: u32 = 2013265921;
const NATIVE: u32 = 4;

type P3Ext = BinomialExtensionField<P3BabyBear, 4>;

fn bb(v: u32) -> BabyBear {
    BabyBear { v }
}

fn rng() -> StdRng {
    StdRng::seed_from_u64(42)
}

fn rand_elem(rng: &mut StdRng) -> BabyBear {
    bb(rng.gen_range(0..P))
}

fn instruction(opcode: usize, ops: [u32; 7]) -> Instruction {
    Instruction {
        opcode: VmOpcode { v: opcode },
        a: bb(ops[0]),
        b: bb(ops[1]),
        c: bb(ops[2]),
        d: bb(ops[3]),
        e: bb(ops[4]),
        f: bb(ops[5]),
        g: bb(ops[6]),
    }
}

fn state(pc: u32, timestamp: u32) -> ExecutionState {
    ExecutionState { pc, timestamp }
}

fn write(memory: &mut Memory, space: u32, ptr: u32, data: &[BabyBear]) {
    memory.write(space, ptr, data);
}

fn read(memory: &Memory, space: u32, ptr: u32, n: u32) -> Vec<BabyBear> {
    (0..n).map(|i| memory.unsafe_read_cell(space, ptr + i)).collect()
}

/// Every range-check message that counts asks for a value below its bound.
fn range_checks_pass(msgs: &[Interaction]) -> bool {
    msgs.iter().filter(|m| m.bus == Bus::RangeCheck && m.count.v != 0).all(|m| {
        let bits = m.fields[1].v;
        bits < 32 && (m.fields[0].v as u64) < (1u64 << bits)
    })
}

fn p3_ext(x: [BabyBear; 4]) -> P3Ext {
    <P3Ext as BasedVectorSpace<P3BabyBear>>::from_basis_coefficients_fn(|i| P3BabyBear::new(x[i].v))
}

fn coords(x: P3Ext) -> [BabyBear; 4] {
    let s: &[P3BabyBear] = BasedVectorSpace::<P3BabyBear>::as_basis_coefficients_slice(&x);
    [bb(s[0].as_canonical_u32()), bb(s[1].as_canonical_u32()), bb(s[2].as_canonical_u32()), bb(s[3].as_canonical_u32())]
}

// ---------------------------------------------------------------------------------------------
// Cast.
// ---------------------------------------------------------------------------------------------

#[test]
fn castf_rand_test() {
    let mut rng = rng();
    let chip = CastFCoreChip;
    for _ in 0..3 {
        let y: u32 = rng.gen_range(0..(1 << 30) - 1);
        let (writes, record) = chip.execute_instruction(VmOpcode { v: 0x125 }, bb(y));
        assert_eq!(writes, CastF::solve(y).map(bb));
        let (row, _) = chip.generate_trace_row(&record);
        let (ok, sent) = CastFCoreAir.eval(&row);
        assert!(ok, "Verification failed");
        assert!(sent.iter().all(|(v, bits)| (v.v as u64) < (1u64 << bits)), "Verification failed");
    }
}

#[test]
fn negative_castf_overflow_test() {
    let mut rng = rng();
    let chip = CastFCoreChip;
    let y: u32 = rng.gen_range(0..(1 << 30) - 1);
    let (_, record) = chip.execute_instruction(VmOpcode { v: 0x125 }, bb(y));
    let (mut row, _) = chip.generate_trace_row(&record);
    row.out_val[3] = bb(rng.gen_range(1 << 6..1 << 8));
    let (ok, sent) = CastFCoreAir.eval(&row);
    let range_ok = sent.iter().all(|(v, bits)| (v.v as u64) < (1u64 << bits));
    assert!(!(ok && range_ok), "Expected verification to fail, but it didn't");
    assert!(!range_ok);
}

// ---------------------------------------------------------------------------------------------
// Field extension.
// ---------------------------------------------------------------------------------------------

#[test]
fn new_field_extension_air_test() {
    let mut rng = rng();
    let chip = FieldExtensionCoreChip { offset: 0x140 };
    let air = FieldExtensionCoreAir { offset: 0x140 };
    let num_ops: usize = 7;
    let mut rows = Vec::new();
    for _ in 0..num_ops {
        let local: usize = rng.gen_range(0..4);
        let opcode = FieldExtensionOpcode::from_usize(local).unwrap();
        let operand1 = [0; 4].map(|_: u32| rand_elem(&mut rng));
        let operand2 = [0; 4].map(|_: u32| rand_elem(&mut rng));
        let result = FieldExtension::solve(opcode, operand1, operand2).unwrap();
        let (x, record) = chip.execute_instruction(VmOpcode { v: 0x140 + local }, operand1, operand2);
        assert_eq!(result, x);
        let row = chip.generate_trace_row(&record);
        assert!(air.eval(&row).0, "Verification failed");
        rows.push(row);
    }
    // negative test: pranking every value of the first and the last row
    for height in [0, num_ops - 1] {
        let mut row = rows[height];
        let mut prank = || bb(rng.gen_range(1..=100));
        row.x = [prank(), prank(), prank(), prank()];
        row.y = [prank(), prank(), prank(), prank()];
        row.z = [prank(), prank(), prank(), prank()];
        row.is_add = prank();
        row.is_sub = prank();
        row.is_mul = prank();
        row.is_div = prank();
        row.divisor_inv = [prank(), prank(), prank(), prank()];
        assert!(!air.eval(&row).0, "Expected constraint to fail");
    }
}

#[test]
fn new_field_extension_consistency_test() {
    let mut rng = rng();
    for _ in 0..100 {
        let a = [0; 4].map(|_: u32| rand_elem(&mut rng));
        let b = [0; 4].map(|_: u32| rand_elem(&mut rng));
        assert_eq!(FieldExtension::add(a, b), coords(p3_ext(a) + p3_ext(b)));
        assert_eq!(FieldExtension::subtract(a, b), coords(p3_ext(a) - p3_ext(b)));
        assert_eq!(FieldExtension::multiply(a, b), coords(p3_ext(a) * p3_ext(b)));
        assert_eq!(FieldExtension::divide(a, b), coords(p3_ext(a) / p3_ext(b)));
        assert_eq!(FieldExtension::multiply(FieldExtension::divide(a, b), b), a);
    }
}

// ---------------------------------------------------------------------------------------------
// FRI reduced opening.
// ---------------------------------------------------------------------------------------------

fn compute_fri_mat_opening(alpha: [BabyBear; 4], a: &[BabyBear], b: &[[BabyBear; 4]]) -> [BabyBear; 4] {
    let mut alpha_pow = [bb(1), bb(0), bb(0), bb(0)];
    let mut result = [bb(0); 4];
    for (&a, &b) in a.iter().zip(b) {
        let diff = FieldExtension::subtract(b, [a, bb(0), bb(0), bb(0)]);
        result = FieldExtension::add(result, FieldExtension::multiply(diff, alpha_pow));
        alpha_pow = FieldExtension::multiply(alpha, alpha_pow);
    }
    result
}

fn prank_fri_row(rng: &mut StdRng) -> FriReducedOpeningCols {
    let mut p = || bb(rng.gen_range(1..=100));
    FriReducedOpeningCols {
        enabled: p(),
        pc: p(),
        start_timestamp: p(),
        a_ptr_ptr: p(),
        b_ptr_ptr: p(),
        result_ptr: p(),
        addr_space: p(),
        length_ptr: p(),
        alpha_ptr: p(),
        is_init_ptr: p(),
        hint_id_ptr: p(),
        is_init: p(),
        a_ptr: p(),
        b_ptr: p(),
        a: p(),
        b: [p(), p(), p(), p()],
        alpha: [p(), p(), p(), p()],
        alpha_pow_original: [p(), p(), p(), p()],
        alpha_pow_current: [p(), p(), p(), p()],
        idx: p(),
        idx_is_zero: p(),
        is_zero_aux: p(),
        current: [p(), p(), p(), p()],
    }
}

#[test]
fn fri_mat_opening_air_test() {
    let num_ops = 14;
    let mut rng = rng();
    let mut memory = Memory::new(0);
    let mut streams = Streams { input_stream: VecDeque::new(), hint_stream: VecDeque::new(), hint_space: vec![vec![]] };
    let mut chip = FriReducedOpeningChip::new(0x160);
    let mut pc = 0u32;
    let mut first_rows = Vec::new();
    let mut results = Vec::new();
    for op in 0..num_ops {
        let mut elem = || bb(rng.gen_range(1..=100));
        let alpha = [elem(), elem(), elem(), elem()];
        let length: u32 = rng.gen_range(1..=49);
        let a: Vec<BabyBear> = (0..length).map(|_| bb(rng.gen_range(1..=100))).collect();
        let b: Vec<[BabyBear; 4]> = (0..length)
            .map(|_| [0; 4].map(|_: u32| bb(rng.gen_range(1..=100))))
            .collect();
        let result = compute_fri_mat_opening(alpha, &a, &b);

        let base = 1000 + 400 * op as u32;
        let (alpha_pointer, length_pointer, a_pointer_pointer, b_pointer_pointer) = (base, base + 4, base + 5, base + 6);
        let (result_pointer, is_init_ptr, hint_id_ptr) = (base + 8, base + 12, base + 13);
        let (a_pointer, b_pointer) = (base + 16, base + 80);
        write(&mut memory, NATIVE, alpha_pointer, &alpha);
        write(&mut memory, NATIVE, length_pointer, &[bb(length)]);
        write(&mut memory, NATIVE, a_pointer_pointer, &[bb(a_pointer)]);
        write(&mut memory, NATIVE, b_pointer_pointer, &[bb(b_pointer)]);
        write(&mut memory, NATIVE, hint_id_ptr, &[bb(0)]);
        let is_init: u32 = rng.gen_range(0..2);
        write(&mut memory, NATIVE, is_init_ptr, &[bb(is_init)]);
        if is_init == 0 {
            streams.hint_space[0].extend_from_slice(&a);
        } else {
            write(&mut memory, NATIVE, a_pointer, &a);
        }
        for (i, bi) in b.iter().enumerate() {
            write(&mut memory, NATIVE, b_pointer + 4 * i as u32, bi);
        }
        first_rows.push(chip.height);
        let ins = instruction(
            0x160,
            [a_pointer_pointer, b_pointer_pointer, length_pointer, alpha_pointer, result_pointer, hint_id_ptr, is_init_ptr],
        );
        let ts = memory.timestamp();
        let next = chip.execute(&mut memory, &mut streams, &ins, state(pc, ts));
        assert_eq!(next, state(pc + 4, ts + 6 + 2 * length));
        pc += 4;
        assert_eq!(result.to_vec(), read(&memory, NATIVE, result_pointer, 4));
        results.push((chip.height - 1, result));
        // `a` was populated
        assert_eq!(a, read(&memory, NATIVE, a_pointer, length));
    }
    assert!(streams.hint_space[0].is_empty());

    let trace = chip.generate_trace();
    let air = FriReducedOpeningAir { offset: 0x160 };
    let n = trace.len();
    for k in 0..n {
        assert!(air.eval(&trace[k], &trace[(k + 1) % n]).0, "Verification failed");
    }
    // the last row of each instruction holds the whole sum
    for &(last, result) in &results {
        assert_eq!(trace[last].current, result);
    }
    // negative test pranking each value of one row of each instruction
    for &height in &first_rows {
        let mut bad = trace.clone();
        bad[height] = prank_fri_row(&mut rng);
        let prev = (height + n - 1) % n;
        let fails = !air.eval(&bad[prev], &bad[height]).0 || !air.eval(&bad[height], &bad[(height + 1) % n]).0;
        assert!(fails, "Expected constraint to fail");
    }
}

// ---------------------------------------------------------------------------------------------
// Jump and range check.
// ---------------------------------------------------------------------------------------------

#[test]
fn rand_jal_test() {
    let mut rng = rng();
    let mut chip = JalRangeCheckChip::new();
    let mut memory = Memory::new(0);
    for _ in 0..100 {
        let imm: u32 = rng.gen_range(0..20);
        let a: u32 = rng.gen_range(0..32) << 2;
        let initial_pc: u32 = rng.gen_range(0..(1 << 30));
        let ts = memory.timestamp();
        let next = chip.execute(&mut memory, &instruction(0x115, [a, imm, 0, NATIVE, 0, 0, 0]), state(initial_pc, ts));
        assert_eq!(next, Ok(state(initial_pc + imm, ts + 1)));
        assert_eq!(memory.unsafe_read_cell(NATIVE, a), bb(initial_pc + 4));
    }
    for record in &chip.records {
        let (row, _) = JalRangeCheckChip::generate_trace_row(record);
        let e = JalRangeCheckAir.eval(&row);
        assert!(e.constraints_ok && range_checks_pass(&e.interactions), "Verification failed");
    }
}

fn range_check_rows(chip: &mut JalRangeCheckChip, rng: &mut StdRng, cases: &[(u32, u32, u32)]) -> Vec<bool> {
    let mut memory = Memory::new(0);
    let a: u32 = rng.gen_range(0..32) << 2;
    for &(val, x_bit, y_bit) in cases {
        write(&mut memory, NATIVE, a, &[bb(val)]);
        let ts = memory.timestamp();
        let pc: u32 = rng.gen_range(0..(1 << 30));
        let _ = chip.execute(&mut memory, &instruction(0x120, [a, x_bit, y_bit, NATIVE, 0, 0, 0]), state(pc, ts));
    }
    chip.records
        .iter()
        .map(|record| {
            let (row, _) = JalRangeCheckChip::generate_trace_row(record);
            let e = JalRangeCheckAir.eval(&row);
            e.constraints_ok && range_checks_pass(&e.interactions)
        })
        .collect()
}

#[test]
fn rand_range_check_test() {
    let mut rng = rng();
    let f = |x: u32, y: u32| (x + y * (1 << 16), 32 - x.leading_zeros(), 32 - y.leading_zeros());
    let mut cases: Vec<(u32, u32, u32)> = (0..10).map(|_| f(0, rng.gen_range(0..1 << 14))).collect();
    cases.extend((0..10).map(|_| f(rng.gen_range(0..1 << 16), 0)));
    cases.extend((0..10).map(|_| f(rng.gen_range(0..1 << 16), rng.gen_range(0..1 << 14))));
    cases.push(f((1 << 16) - 1, (1 << 14) - 1));
    let mut chip = JalRangeCheckChip::new();
    let accepted = range_check_rows(&mut chip, &mut rng, &cases);
    assert_eq!(accepted.len(), cases.len());
    assert!(accepted.iter().all(|&ok| ok), "Verification failed");
}

#[test]
fn negative_range_check_test() {
    {
        let mut rng = rng();
        let mut chip = JalRangeCheckChip::new().with_debug();
        let accepted = range_check_rows(&mut chip, &mut rng, &[(2, 1, 1)]);
        assert!(!accepted[0]);
    }
    {
        let mut rng = rng();
        let mut chip = JalRangeCheckChip::new().with_debug();
        let accepted = range_check_rows(&mut chip, &mut rng, &[(1 << 16, 1, 0)]);
        assert!(!accepted[0]);
    }
}

#[test]
fn negative_jal_test() {
    let mut rng = rng();
    let mut chip = JalRangeCheckChip::new();
    let mut memory = Memory::new(0);
    let imm: u32 = rng.gen_range(0..20);
    let a: u32 = rng.gen_range(0..32) << 2;
    let ts = memory.timestamp();
    let next = chip.execute(&mut memory, &instruction(0x115, [a, imm, 0, NATIVE, 0, 0, 0]), state(100, ts)).unwrap();
    let (mut row, _) = JalRangeCheckChip::generate_trace_row(&chip.records[0]);
    row.b = bb(rng.gen_range(1 << 11..1 << 12));
    let e = JalRangeCheckAir.eval(&row);
    // the execution message no longer lands where the execution went
    assert_ne!(e.interactions[1].fields[7], bb(next.pc), "Expected verification to fail, but it didn't");
}

// ---------------------------------------------------------------------------------------------
// Load and store.
// ---------------------------------------------------------------------------------------------

#[test]
fn rand_native_loadstore_test() {
    let mut rng = rng();
    let mut chip: NativeLoadStoreChip<1> = NativeLoadStoreChip::new(0x100);
    let mut memory = Memory::new(0);
    let mut streams = Streams { input_stream: VecDeque::new(), hint_stream: VecDeque::new(), hint_space: Vec::new() };
    let (ad_val, cd_val, data_val) = (bb(111), bb(222), bb(444));
    for _ in 0..20 {
        for local in [1usize, 2, 0] {
            let a: u32 = rng.gen_range(0..1 << 20);
            let b: u32 = rng.gen_range(0..1 << 20);
            let c: u32 = rng.gen_range(0..1 << 20);
            write(&mut memory, NATIVE, a, &[ad_val]);
            write(&mut memory, NATIVE, c, &[cd_val]);
            let data_pointer = cd_val.v + b;
            if local == 0 {
                write(&mut memory, NATIVE, data_pointer, &[data_val]);
            }
            if local == 2 {
                streams.hint_stream.push_back(data_val);
            }
            let ts = memory.timestamp();
            let ins = instruction(0x100 + local, [a, b, c, NATIVE, NATIVE, 0, 0]);
            let r = chip.execute(&mut memory, &mut streams, &ins, state(0, ts));
            assert!(r.is_ok());
            let (written, correct) = match local {
                0 => (memory.unsafe_read_cell(NATIVE, a), data_val),
                1 => (memory.unsafe_read_cell(NATIVE, data_pointer), ad_val),
                _ => (memory.unsafe_read_cell(NATIVE, data_pointer), data_val),
            };
            assert_eq!(written, correct);
        }
    }
}
