use openvm_native::conversion::Instruction;
use openvm_native::field::BabyBear;
use openvm_native::machine::{ExecutionState, Memory};
use openvm_native::opcodes::VmOpcode;
use openvm_native::poseidon2::{
    permute, NativePoseidon2Chip, NATIVE_POSEIDON2_CHUNK_SIZE, NATIVE_POSEIDON2_WIDTH,
};
use openvm_stark_backend::p3_field::PrimeField32;
use openvm_stark_backend::p3_symmetric::Permutation;
use openvm_stark_sdk::config::baby_bear_poseidon2::poseidon2_perm;
use openvm_stark_sdk::p3_baby_bear::BabyBear as P3BabyBear;
use rand::rngs::StdRng;
use rand::{Rng, SeedableRng};

const PERM_POS2: usize = 0;
const COMP_POS2: usize = 1;

fn bb(v: u32) -> BabyBear {
    BabyBear { v }
}

fn zero() -> BabyBear {
    bb(0)
}

/// A pointer aligned to `len`, well inside the address range.
fn gen_pointer(rng: &mut StdRng, len: u32) -> u32 {
    rng.gen_range(0..(1u32 << 20)) / len * len
}

/// The permutation computed directly with the Plonky3 Poseidon2 instance.
fn reference_permute(data: [u32; 16]) -> [u32; 16] {
    let mut s = data.map(P3BabyBear::new);
    poseidon2_perm().permute_mut(&mut s);
    s.map(|x| x.as_canonical_u32())
}

fn random_instructions(rng: &mut StdRng, num_ops: usize) -> Vec<Instruction> {
    (0..num_ops)
        .map(|_| {
            let a = gen_pointer(rng, 1);
            let b = gen_pointer(rng, 1);
            let c = gen_pointer(rng, 1);
            Instruction {
                opcode: VmOpcode {
                    v: if rng.gen_bool(0.5) { PERM_POS2 } else { COMP_POS2 },
                },
                a: bb(a),
                b: bb(b),
                c: bb(c),
                d: bb(1),
                e: bb(2),
                f: zero(),
                g: zero(),
            }
        })
        .collect()
}

fn run_random_poseidon2_ops(num_ops: usize, max_constraint_degree: usize) {
    let mut rng = StdRng::from_seed([42; 32]);
    let mut chip = NativePoseidon2Chip::new(0, max_constraint_degree);
    let mut memory = Memory::new(1);
    let mut pc = 0u32;
    for instruction in random_instructions(&mut rng, num_ops) {
        let opcode = instruction.opcode.v;
        let [a, b, c, d, e] = [
            instruction.a,
            instruction.b,
            instruction.c,
            instruction.d,
            instruction.e,
        ]
        .map(|x| x.v);
        let dst = gen_pointer(&mut rng, NATIVE_POSEIDON2_CHUNK_SIZE as u32);
        let lhs = gen_pointer(&mut rng, NATIVE_POSEIDON2_CHUNK_SIZE as u32);
        let rhs = gen_pointer(&mut rng, NATIVE_POSEIDON2_CHUNK_SIZE as u32);
        let data: [u32; NATIVE_POSEIDON2_WIDTH] = std::array::from_fn(|_| rng.gen_range(1..=100));
        let hash = reference_permute(data);

        memory.write(d, a, &[bb(dst)]);
        memory.write(d, b, &[bb(lhs)]);
        if opcode == COMP_POS2 {
            memory.write(d, c, &[bb(rhs)]);
            let left: Vec<BabyBear> = data[..NATIVE_POSEIDON2_CHUNK_SIZE].iter().map(|&x| bb(x)).collect();
            let right: Vec<BabyBear> = data[NATIVE_POSEIDON2_CHUNK_SIZE..].iter().map(|&x| bb(x)).collect();
            memory.write(e, lhs, &left);
            memory.write(e, rhs, &right);
        } else {
            let all: Vec<BabyBear> = data.iter().map(|&x| bb(x)).collect();
            memory.write(e, lhs, &all);
        }

        let from_state = ExecutionState { pc, timestamp: memory.timestamp() };
        let to_state = chip.execute(&mut memory, &instruction, from_state);
        assert_eq!(to_state.pc, pc + 4);
        assert_eq!(to_state.timestamp, from_state.timestamp + 7);
        pc = to_state.pc;

        if opcode == COMP_POS2 {
            let actual = memory.read(e, dst, NATIVE_POSEIDON2_CHUNK_SIZE as u32);
            let expected: Vec<BabyBear> = hash[..NATIVE_POSEIDON2_CHUNK_SIZE].iter().map(|&x| bb(x)).collect();
            assert_eq!(expected, actual);
        } else {
            let actual = memory.read(e, dst, NATIVE_POSEIDON2_WIDTH as u32);
            let expected: Vec<BabyBear> = hash.iter().map(|&x| bb(x)).collect();
            assert_eq!(expected, actual);
        }
    }
}

/// Checking that 50 random instructions pass.
#[test]
fn poseidon2_chip_random_max_constraint_degree_7() {
    run_random_poseidon2_ops(50, 7);
}

#[test]
fn poseidon2_chip_random_max_constraint_degree_3() {
    run_random_poseidon2_ops(50, 3);
}

#[test]
fn poseidon2_permute_is_not_identity() {
    let state: [BabyBear; 16] = std::array::from_fn(|i| bb(i as u32));
    let out = permute(&state);
    assert_ne!(out, state);
    let expected = reference_permute(std::array::from_fn(|i| i as u32));
    assert_eq!(out.map(|x| x.v), expected);
}
