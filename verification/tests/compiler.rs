use openvm_stark_backend::p3_field::extension::BinomialExtensionField;
use openvm_stark_backend::p3_field::BasedVectorSpace;
use openvm_stark_sdk::p3_baby_bear::BabyBear as P3BabyBear;
use openvm_native::assembly::{AsmInstruction, A0, HEAP_PTR, HEAP_START_ADDRESS, STACK_TOP};
use openvm_native::builder::{Builder, BuilderFlags};
use openvm_native::compiler::{AsmCompiler, AssemblyCode, BasicBlock};
use openvm_native::conversion::{convert_instruction, convert_program, CompilerOptions, Instruction, AS};
use openvm_native::field::BabyBear;
use openvm_native::ir::{Array, DslIr, Ext, Felt, Ptr, RVar, Usize, Var};
use openvm_native::opcodes::VmOpcode;

const P: u32 = 2013265921;

type P3Ext = BinomialExtensionField<P3BabyBear, 4>;

fn bb(v: u32) -> BabyBear {
    BabyBear { v }
}

fn inst(opcode: usize, a: u32, b: u32, c: u32, d: u32, e: u32, f: u32) -> Instruction {
    Instruction {
        opcode: VmOpcode { v: opcode },
        a: bb(a),
        b: bb(b),
        c: bb(c),
        d: bb(d),
        e: bb(e),
        f: bb(f),
        g: bb(0),
    }
}

fn blocks(code: &AssemblyCode) -> Vec<Vec<AsmInstruction>> {
    code.blocks.iter().map(|b| b.0.clone()).collect()
}

fn prologue() -> Vec<Vec<AsmInstruction>> {
    vec![
        vec![AsmInstruction::ImmF(HEAP_PTR, bb(HEAP_START_ADDRESS as u32)), AsmInstruction::Jump(A0, bb(2))],
        vec![AsmInstruction::Trap],
    ]
}

#[test]
fn frame_offsets_interleave_variables() {
    assert_eq!(Var(0).fp(), STACK_TOP - 1);
    assert_eq!(Var(1).fp(), STACK_TOP - 2);
    assert_eq!(Var(2).fp(), STACK_TOP - 9);
    assert_eq!(Felt(0).fp(), STACK_TOP - 3);
    assert_eq!(Felt(3).fp(), STACK_TOP - 12);
    assert_eq!(Ext(0).fp(), STACK_TOP);
    assert_eq!(Ext(2).fp(), STACK_TOP - 16);
}

#[test]
fn straight_line_program_follows_the_prologue() {
    let mut compiler = AsmCompiler::new(8);
    compiler.build(vec![
        DslIr::AddV(Var(0), Var(1), Var(2)),
        DslIr::MulFI(Felt(0), Felt(1), bb(5)),
        DslIr::ImmV(Var(3), bb(7)),
    ]);
    let code = compiler.code();
    let mut expected = prologue();
    expected.push(vec![
        AsmInstruction::AddF(Var(0).fp(), Var(1).fp(), Var(2).fp()),
        AsmInstruction::MulFI(Felt(0).fp(), Felt(1).fp(), bb(5)),
        AsmInstruction::ImmF(Var(3).fp(), bb(7)),
    ]);
    assert_eq!(blocks(&code), expected);
}

#[test]
fn if_without_else_branches_over_the_then_block() {
    let mut compiler = AsmCompiler::new(8);
    compiler.build(vec![DslIr::IfEq(
        Var(0),
        Var(1),
        vec![DslIr::AddVI(Var(2), Var(2), bb(1))],
        vec![],
    )]);
    let code = compiler.code();
    let mut expected = prologue();
    expected.push(vec![AsmInstruction::Bne(bb(4), Var(0).fp(), Var(1).fp())]);
    expected.push(vec![AsmInstruction::AddFI(Var(2).fp(), Var(2).fp(), bb(1))]);
    expected.push(vec![]);
    assert_eq!(blocks(&code), expected);
}

#[test]
fn if_with_else_jumps_back_to_the_main_flow() {
    let mut compiler = AsmCompiler::new(8);
    compiler.build(vec![DslIr::IfNeI(
        Var(0),
        bb(3),
        vec![DslIr::ImmV(Var(1), bb(1))],
        vec![DslIr::ImmV(Var(1), bb(2))],
    )]);
    let code = compiler.code();
    let mut expected = prologue();
    // `if v0 != 3`: branch to the else block when v0 == 3
    expected.push(vec![AsmInstruction::BeqI(bb(4), Var(0).fp(), bb(3))]);
    expected.push(vec![AsmInstruction::ImmF(Var(1).fp(), bb(1)), AsmInstruction::Jump(A0, bb(5))]);
    expected.push(vec![AsmInstruction::ImmF(Var(1).fp(), bb(2))]);
    expected.push(vec![]);
    assert_eq!(blocks(&code), expected);
}

#[test]
fn assertion_branches_to_the_trap() {
    let mut compiler = AsmCompiler::new(8);
    compiler.build(vec![DslIr::AssertEqV(Var(0), Var(1))]);
    let code = compiler.code();
    let b = blocks(&code);
    assert_eq!(b.len(), 3);
    assert_eq!(b[2], vec![AsmInstruction::Bne(bb(1), Var(0).fp(), Var(1).fp())]);
}

#[test]
fn every_jump_of_a_loop_program_lands_on_a_block() {
    let mut compiler = AsmCompiler::new(8);
    compiler.build(vec![
        DslIr::For(
            RVar::Const(bb(0)),
            RVar::Const(bb(10)),
            bb(1),
            Var(0),
            vec![DslIr::AddVI(Var(1), Var(1), bb(2))],
        ),
        DslIr::Loop(vec![DslIr::IfEqI(Var(1), bb(20), vec![DslIr::Break], vec![])]),
        DslIr::Halt,
    ]);
    let code = compiler.code();
    let b = blocks(&code);
    let n = b.len() as u32;
    for block in &b {
        for i in block {
            match i {
                AsmInstruction::Jump(_, l)
                | AsmInstruction::Bne(l, _, _)
                | AsmInstruction::BneI(l, _, _)
                | AsmInstruction::Beq(l, _, _)
                | AsmInstruction::BeqI(l, _, _) => assert!(l.v < n),
                AsmInstruction::Break(_) => panic!("an unresolved break is left"),
                _ => {}
            }
        }
    }
    assert_eq!(b.last().unwrap(), &vec![AsmInstruction::Halt]);
}

#[test]
fn conversion_resolves_labels_to_program_counters() {
    let code = AssemblyCode {
        blocks: vec![
            BasicBlock(vec![AsmInstruction::ImmF(HEAP_PTR, bb(HEAP_START_ADDRESS as u32)), AsmInstruction::Jump(A0, bb(2))]),
            BasicBlock(vec![AsmInstruction::Trap]),
            BasicBlock(vec![AsmInstruction::AddF(10, 11, 12), AsmInstruction::Halt]),
        ],
    };
    let program = convert_program(code, CompilerOptions::default());
    let expected = vec![
        // mem[0] <- 0
        inst(0x130, 0, 0, 0, 4, 0, 0),
        // pc 4: heap pointer
        inst(0x130, HEAP_PTR as u32, HEAP_START_ADDRESS as u32, 0, 4, 0, 4),
        // pc 8: jump to block 2, at pc 20
        inst(0x115, A0 as u32, 12, 0, 4, 0, 0),
        // pc 12: trap: phantom debug-panic, then terminate with exit code 1
        inst(1, 0, 0, 1, 0, 0, 0),
        inst(0, 0, 0, 1, 0, 0, 0),
        // pc 20
        inst(0x130, 10, 11, 12, 4, 4, 4),
        inst(0, 0, 0, 0, 0, 0, 0),
    ];
    assert_eq!(program, expected);
}

#[test]
fn negative_offsets_are_embedded_as_field_negatives() {
    let labels = vec![bb(0), bb(100)];
    let out = convert_instruction(
        AsmInstruction::AddFI(-3, -4, bb(9)),
        bb(8),
        &labels,
        &CompilerOptions::default(),
    );
    assert_eq!(out, vec![inst(0x130, P - 3, P - 4, 9, 4, 4, 0)]);
    let out = convert_instruction(AsmInstruction::Bne(bb(1), 5, 6), bb(8), &labels, &CompilerOptions::default());
    assert_eq!(out, vec![inst(0x111, 5, 6, 92, 4, 4, 0)]);
}

#[test]
fn cycle_tracker_instructions_depend_on_the_option() {
    let labels = vec![bb(0)];
    let off = convert_instruction(AsmInstruction::CycleTrackerStart, bb(4), &labels, &CompilerOptions::default());
    assert!(off.is_empty());
    let opts = CompilerOptions::default().with_cycle_tracker();
    assert!(opts.enable_cycle_tracker);
    let on = convert_instruction(AsmInstruction::CycleTrackerStart, bb(4), &labels, &opts);
    assert_eq!(on.len(), 1);
    assert_eq!(on[0].opcode, VmOpcode { v: 1 });
}

#[test]
fn address_spaces_as_field_elements() {
    assert_eq!(AS::Immediate.to_field().v, 0);
    assert_eq!(AS::Native.to_field().v, 4);
}

#[test]
fn phantom_packs_discriminant_and_upper_half() {
    let i = Instruction::phantom(0x12, bb(7), bb(31), 4);
    assert_eq!(i, inst(1, 7, 31, 0x12 + (4 << 16), 0, 0, 0));
    assert_eq!(Instruction::debug(0x20), inst(1, 0, 0, 0x20, 0, 0, 0));
}

#[test]
fn assembly_text_of_instructions() {
    let labels: Vec<(BabyBear, String)> = vec![(bb(2), String::from("main"))];
    assert_eq!(AsmInstruction::AddF(1, 2, 3).fmt(&labels), "add   (1)fp, (2)fp, (3)fp");
    assert_eq!(AsmInstruction::AddFI(-1, 2, bb(5)).fmt(&labels), "addi  (-1)fp, (2)fp, 5");
    assert_eq!(AsmInstruction::ImmF(4, bb(9)).fmt(&labels), "imm   (4)fp, (9)");
    assert_eq!(AsmInstruction::Jump(8, bb(2)).fmt(&labels), "j     (8)fp, main");
    assert_eq!(AsmInstruction::Jump(8, bb(3)).fmt(&labels), "j     (8)fp, .L3");
    assert_eq!(AsmInstruction::Bne(bb(3), 1, 2).fmt(&labels), "bne   .L3, (1)fp, (2)fp");
    assert_eq!(AsmInstruction::SubFIN(1, bb(2), 3).fmt(&labels), "subin (1)fp, 2, (3)fp");
    assert_eq!(AsmInstruction::AddE(1, 2, 3).fmt(&labels), "eadd (1)fp, (2)fp, (3)fp");
}

#[test]
fn builder_compiles_to_vm_instructions() {
    let mut builder = Builder::new(BuilderFlags::default());
    let v = builder.uninit_var();
    builder.push(DslIr::ImmV(v, bb(7)));
    builder.push(DslIr::Halt);
    let program = builder.compile_isa();
    assert_eq!(
        program,
        vec![
            inst(0x130, 0, 0, 0, 4, 0, 0),
            inst(0x130, HEAP_PTR as u32, HEAP_START_ADDRESS as u32, 0, 4, 0, 4),
            inst(0x115, A0 as u32, 12, 0, 4, 0, 0),
            inst(1, 0, 0, 1, 0, 0, 0),
            inst(0, 0, 0, 1, 0, 0, 0),
            inst(0x130, (STACK_TOP - 1) as u32, 7, 0, 4, 0, 4),
            inst(0, 0, 0, 0, 0, 0, 0),
        ]
    );
}

#[test]
fn builder_pushes_hash_and_batch_instructions() {
    let mut builder = Builder::new(BuilderFlags::default());
    let state: Array<Felt> = Array::Dyn(Ptr { address: Var(3) }, Usize::Const(16));
    builder.poseidon2_permute_mut(&state);
    let left: Array<Felt> = Array::Dyn(Ptr { address: Var(4) }, Usize::Const(8));
    let right: Array<Felt> = Array::Dyn(Ptr { address: Var(5) }, Usize::Const(8));
    builder.poseidon2_compress_x(&state, &left, &right);
    let at_z: Array<Ext> = Array::Dyn(Ptr { address: Var(6) }, Usize::Var(Var(7)));
    let r = builder.fri_single_reduced_opening_eval(Ext(2), Var(8), Var(9), &left, &at_z);
    assert_eq!(r, Ext(0));
    assert_eq!(builder.ext_count, 1);
    let dims: Array<Usize> = builder.vec(vec![Usize::Const(4)]);
    let opened: Array<Array<Felt>> = Array::Dyn(Ptr { address: Var(10) }, Usize::Const(1));
    let bits: Array<Var> = builder.vec(vec![Var(11), Var(12)]);
    builder.verify_batch_felt(&dims, &opened, Var(13), &bits, &right);
    let ops = &builder.operations;
    assert_eq!(ops.len(), 4);
    match &ops[0] {
        DslIr::Poseidon2PermuteBabyBear(Array::Dyn(d, _), Array::Dyn(s, _)) => {
            assert_eq!((d.address, s.address), (Var(3), Var(3)))
        }
        other => panic!("unexpected {:?}", other),
    }
    match &ops[1] {
        DslIr::Poseidon2CompressBabyBear(Array::Dyn(a, _), Array::Dyn(b, _), Array::Dyn(c, _)) => {
            assert_eq!((a.address, b.address, c.address), (Var(3), Var(4), Var(5)))
        }
        other => panic!("unexpected {:?}", other),
    }
    match &ops[2] {
        DslIr::FriReducedOpening(alpha, h, i, Array::Dyn(x, _), Array::Dyn(z, Usize::Var(len)), res) => {
            assert_eq!((*alpha, *h, *i, x.address, z.address, *len, *res), (Ext(2), Var(8), Var(9), Var(4), Var(6), Var(7), Ext(0)))
        }
        other => panic!("unexpected {:?}", other),
    }
    match &ops[3] {
        DslIr::VerifyBatchFelt(d, Array::Dyn(o, _), p, b, Array::Dyn(c, _)) => {
            assert_eq!(d.vec(), vec![Usize::Const(4)]);
            assert_eq!(b.vec(), vec![Var(11), Var(12)]);
            assert_eq!((o.address, *p, c.address), (Var(10), Var(13), Var(5)));
        }
        other => panic!("unexpected {:?}", other),
    }
}

#[test]
fn fixed_arrays_share_their_entries_between_copies() {
    let mut builder = Builder::new(BuilderFlags::default());
    let a: Array<Felt> = builder.vec(vec![Felt(1), Felt(2), Felt(3)]);
    let b = a.clone();
    assert!(b.is_fixed());
    assert_eq!(b.len(), Usize::Const(3));
    assert_eq!(b.vec(), vec![Felt(1), Felt(2), Felt(3)]);
    let u: Array<Felt> = builder.uninit_fixed_array(5);
    assert_eq!(u.len(), Usize::Const(5));
    match &u {
        Array::Fixed(v) => assert!(v.iter().all(|x| x.is_none())),
        Array::Dyn(_, _) => panic!("expected a fixed array"),
    }
    assert_eq!(builder.operations.len(), 0);
}

#[test]
fn adding_a_felt_to_an_extension_constant_adds_to_the_first_coordinate() {
    let mut compiler = AsmCompiler::new(1);
    compiler.build(vec![DslIr::AddEFFI(Ext(1), Felt(0), [bb(5), bb(6), bb(7), bb(8)])]);
    let code = compiler.code();
    assert_eq!(Ext(1).fp(), 16777144);
    assert_eq!(Felt(0).fp(), 16777149);
    assert_eq!(
        blocks(&code)[2],
        vec![
            AsmInstruction::AddFI(16777144, 16777149, bb(5)),
            AsmInstruction::ImmF(16777145, bb(6)),
            AsmInstruction::ImmF(16777146, bb(7)),
            AsmInstruction::ImmF(16777147, bb(8)),
        ]
    );
}

#[test]
fn extension_constants_print_as_their_nonzero_terms() {
    let labels: Vec<(BabyBear, String)> = vec![];
    for c in [[0u32, 0, 0, 0], [5, 1, 0, 7], [0, 0, 1, 0], [1, 2, 3, 1], [0, 0, 0, P - 1], [12, 0, 0, 0]] {
        let e = <P3Ext as BasedVectorSpace<P3BabyBear>>::from_basis_coefficients_fn(|i| P3BabyBear::new(c[i]));
        let text = AsmInstruction::BneEI(bb(3), 1, c.map(bb)).fmt(&labels);
        assert_eq!(text, format!("ebnei .L3, (1)fp, {}", e));
    }
    assert_eq!(AsmInstruction::BneEI(bb(3), 1, [5, 1, 0, 7].map(bb)).fmt(&labels), "ebnei .L3, (1)fp, 5 + X + 7 X^3");
    assert_eq!(AsmInstruction::BneEI(bb(3), 1, [0; 4].map(bb)).fmt(&labels), "ebnei .L3, (1)fp, 0");
}

/// Runs the straight-line field instructions of an allocation on a frame.
fn run_frame(frame: &mut std::collections::HashMap<i32, u64>, code: &[AsmInstruction]) {
    let p = P as u64;
    for ins in code {
        match *ins {
            AsmInstruction::CopyF(d, a) => {
                let v = *frame.get(&a).unwrap_or(&0);
                frame.insert(d, v);
            }
            AsmInstruction::AddFI(d, a, c) => {
                let v = (*frame.get(&a).unwrap_or(&0) + c.v as u64) % p;
                frame.insert(d, v);
            }
            AsmInstruction::MulFI(d, a, c) => {
                let v = (*frame.get(&a).unwrap_or(&0) * c.v as u64) % p;
                frame.insert(d, v);
            }
            AsmInstruction::AddF(d, a, b) => {
                let v = (*frame.get(&a).unwrap_or(&0) + *frame.get(&b).unwrap_or(&0)) % p;
                frame.insert(d, v);
            }
            _ => panic!("unexpected instruction"),
        }
    }
}

#[test]
fn heap_allocation_moves_the_heap_pointer_by_whole_words() {
    // a constant length: 5 * 3 = 15 cells, rounded up to 16 with words of 8
    let mut compiler = AsmCompiler::new(8);
    compiler.build(vec![DslIr::Alloc(Ptr { address: Var(0) }, RVar::Const(bb(5)), 3)]);
    let code = blocks(&compiler.code())[2].clone();
    assert_eq!(
        code,
        vec![AsmInstruction::CopyF(Var(0).fp(), HEAP_PTR), AsmInstruction::AddFI(HEAP_PTR, HEAP_PTR, bb(16))]
    );
    let mut frame = std::collections::HashMap::new();
    frame.insert(HEAP_PTR, 64u64);
    run_frame(&mut frame, &code);
    assert_eq!((frame[&Var(0).fp()], frame[&HEAP_PTR]), (64, 80));
    // a length in a variable: 7 elements of 3 cells, each rounded up to 8
    let mut compiler = AsmCompiler::new(8);
    compiler.build(vec![DslIr::Alloc(Ptr { address: Var(0) }, RVar::Val(Var(1)), 3)]);
    let code = blocks(&compiler.code())[2].clone();
    let mut frame = std::collections::HashMap::new();
    frame.insert(HEAP_PTR, 64u64);
    frame.insert(Var(1).fp(), 7u64);
    run_frame(&mut frame, &code);
    assert_eq!((frame[&Var(0).fp()], frame[&HEAP_PTR]), (64, 64 + 7 * 8));
}
