//! Conversion of assembly to VM instructions: every assembly instruction becomes one or more
//! instructions of the native kernel, and block labels become program counters.
use crate::assembly::{branch_effect, exec_field, frame_ext, AsmInstruction};
use crate::extension::{ext_add_int, ext_inv, ext_mul_int, ext_sub_int, reduce4};
use crate::machine::{cell, MemoryModel};
use crate::compiler::{AssemblyCode, BasicBlock};
use crate::field::{field_inv, modp, BabyBear, BABY_BEAR_P};
use crate::opcodes::{
    BranchEqualOpcode, FieldArithmeticOpcode, FieldExtensionOpcode, FriOpcode,
    NativeBranchEqualOpcode, NativeJalOpcode, NativeLoadStore4Opcode, NativeLoadStoreOpcode,
    NativePhantom, NativeRangeCheckOpcode, Poseidon2Opcode, PublishOpcode, SysPhantom,
    SystemOpcode, VerifyBatchOpcode, VmOpcode, DEFAULT_PC_STEP,
};
use vstd::prelude::*;

verus! {

/// Options of the compiler.
#[derive(Clone, Copy, Debug)]
pub struct CompilerOptions {
    /// The compiler keeps the heap pointer a multiple of `word_size`.
    pub word_size: usize,
    pub enable_cycle_tracker: bool,
}

impl Default for CompilerOptions {
    fn default() -> (r: Self)
        ensures
            r.word_size == 8,
            !r.enable_cycle_tracker,
    {
        CompilerOptions { word_size: 8, enable_cycle_tracker: false }
    }
}

impl CompilerOptions {
    /// The same options with cycle tracking enabled.
    pub fn with_cycle_tracker(self) -> (r: Self)
        ensures
            r.enable_cycle_tracker,
            r.word_size == self.word_size,
    {
        let mut r = self;
        r.enable_cycle_tracker = true;
        r
    }
}

/// Address spaces.
#[derive(Clone, Copy, Debug, PartialEq, Eq, Structural)]
pub enum AS {
    Immediate,
    Native,
}

impl AS {
    pub open spec fn spec_value(self) -> u32 {
        match self {
            AS::Immediate => 0,
            AS::Native => 4,
        }
    }

    /// The address space as a field element.
    pub fn to_field(self) -> (r: BabyBear)
        ensures
            r.v == self.spec_value(),
    {
        match self {
            AS::Immediate => BabyBear::zero(),
            AS::Native => BabyBear::from_canonical_u32(4),
        }
    }
}

/// A VM instruction: an opcode and seven operands.
#[derive(Clone, Copy, Debug, PartialEq, Eq, Structural)]
pub struct Instruction {
    pub opcode: VmOpcode,
    pub a: BabyBear,
    pub b: BabyBear,
    pub c: BabyBear,
    pub d: BabyBear,
    pub e: BabyBear,
    pub f: BabyBear,
    pub g: BabyBear,
}

pub open spec fn bb(n: int) -> BabyBear {
    BabyBear { v: n as u32 }
}

/// `x - y` in the field.
pub open spec fn fsub(x: BabyBear, y: BabyBear) -> BabyBear {
    BabyBear { v: modp(x.val() - y.val()) as u32 }
}

/// `x + y` in the field.
pub open spec fn fadd(x: BabyBear, y: BabyBear) -> BabyBear {
    BabyBear { v: modp(x.val() + y.val()) as u32 }
}

/// The phantom instruction with the given discriminant, operands and upper half of `c`.
pub open spec fn phantom_spec(disc: u16, a: BabyBear, b: BabyBear, c_upper: u16) -> Instruction {
    Instruction {
        opcode: VmOpcode { v: 1 },
        a,
        b,
        c: bb(disc + c_upper * 0x10000),
        d: bb(0),
        e: bb(0),
        f: bb(0),
        g: bb(0),
    }
}

impl Instruction {
    /// A phantom instruction: `c` packs the discriminant and `c_upper`.
    pub fn phantom(disc: u16, a: BabyBear, b: BabyBear, c_upper: u16) -> (r: Instruction)
        requires
            disc + c_upper * 0x10000 < BABY_BEAR_P,
        ensures
            r == phantom_spec(disc, a, b, c_upper),
    {
        let d: u32 = disc as u32;
        let u: u32 = c_upper as u32;
        proof {
            assert(d | (u << 16u32) == d + u * 0x10000) by (bit_vector)
                requires
                    d < 0x10000,
                    u < 0x10000,
            ;
        }
        let c = d | (u << 16u32);
        Instruction {
            opcode: SystemOpcode::PHANTOM.global_opcode(),
            a,
            b,
            c: BabyBear::from_canonical_u32(c),
            d: BabyBear::zero(),
            e: BabyBear::zero(),
            f: BabyBear::zero(),
            g: BabyBear::zero(),
        }
    }

    /// A phantom instruction without operands.
    pub fn debug(disc: u16) -> (r: Instruction)
        ensures
            r == phantom_spec(disc, bb(0), bb(0), 0),
    {
        Instruction::phantom(disc, BabyBear::zero(), BabyBear::zero(), 0)
    }
}

pub open spec fn inst_spec(opcode: usize, a: BabyBear, b: BabyBear, c: BabyBear, d: AS, e: AS) -> Instruction {
    Instruction {
        opcode: VmOpcode { v: opcode },
        a,
        b,
        c,
        d: bb(d.spec_value() as int),
        e: bb(e.spec_value() as int),
        f: bb(0),
        g: bb(0),
    }
}

pub open spec fn inst_med_spec(
    opcode: usize,
    a: BabyBear,
    b: BabyBear,
    c: BabyBear,
    d: AS,
    e: AS,
    f: AS,
) -> Instruction {
    Instruction {
        opcode: VmOpcode { v: opcode },
        a,
        b,
        c,
        d: bb(d.spec_value() as int),
        e: bb(e.spec_value() as int),
        f: bb(f.spec_value() as int),
        g: bb(0),
    }
}

fn inst(opcode: VmOpcode, a: BabyBear, b: BabyBear, c: BabyBear, d: AS, e: AS) -> (r: Instruction)
    ensures
        r == inst_spec(opcode.v, a, b, c, d, e),
{
    Instruction { opcode, a, b, c, d: d.to_field(), e: e.to_field(), f: BabyBear::zero(), g: BabyBear::zero() }
}

fn inst_med(
    opcode: VmOpcode,
    a: BabyBear,
    b: BabyBear,
    c: BabyBear,
    d: AS,
    e: AS,
    f: AS,
) -> (r: Instruction)
    ensures
        r == inst_med_spec(opcode.v, a, b, c, d, e, f),
{
    Instruction { opcode, a, b, c, d: d.to_field(), e: e.to_field(), f: f.to_field(), g: BabyBear::zero() }
}

/// An `i32` that the conversion can embed in the field.
pub open spec fn i32_ok(x: int) -> bool {
    -(BABY_BEAR_P as int) < x < BABY_BEAR_P as int
}

/// The field element `x mod p`.
pub open spec fn i32f(x: int) -> BabyBear {
    BabyBear { v: modp(x) as u32 }
}

/// Embeds a signed offset in the field; its magnitude must be below `p`.
fn i32_f(x: i32) -> (r: BabyBear)
    requires
        i32_ok(x as int),
    ensures
        r == i32f(x as int),
{
    if x < 0 {
        let r = BabyBear::from_canonical_u32((-x) as u32).neg();
        r
    } else {
        BabyBear::from_canonical_u32(x as u32)
    }
}

// Global opcodes of the instructions the conversion emits.
pub open spec fn op_loadw() -> usize { 0x100 }
pub open spec fn op_storew() -> usize { 0x101 }
pub open spec fn op_hint_storew() -> usize { 0x102 }
pub open spec fn op_loadw4() -> usize { 0x108 }
pub open spec fn op_storew4() -> usize { 0x109 }
pub open spec fn op_hint_storew4() -> usize { 0x10a }
pub open spec fn op_beq() -> usize { 0x110 }
pub open spec fn op_bne() -> usize { 0x111 }
pub open spec fn op_jal() -> usize { 0x115 }
pub open spec fn op_range_check() -> usize { 0x120 }
pub open spec fn op_add() -> usize { 0x130 }
pub open spec fn op_sub() -> usize { 0x131 }
pub open spec fn op_mul() -> usize { 0x132 }
pub open spec fn op_div() -> usize { 0x133 }
pub open spec fn op_fe4add() -> usize { 0x140 }
pub open spec fn op_fe4sub() -> usize { 0x141 }
pub open spec fn op_bbe4mul() -> usize { 0x142 }
pub open spec fn op_bbe4div() -> usize { 0x143 }
pub open spec fn op_perm_pos2() -> usize { 0x150 }
pub open spec fn op_comp_pos2() -> usize { 0x151 }
pub open spec fn op_fri() -> usize { 0x160 }
pub open spec fn op_verify_batch() -> usize { 0x170 }
pub open spec fn op_terminate() -> usize { 0 }
pub open spec fn op_publish() -> usize { 0x20 }

/// The label's program counter.
pub open spec fn lab(labels: Seq<BabyBear>, l: BabyBear) -> BabyBear {
    labels[l.v as int]
}

/// The `k`-th instruction of an extension branch: four word comparisons.  `BneE` jumps as soon
/// as one coordinate differs; `BeqE` falls through as soon as one differs and jumps on the last.
pub open spec fn ext_branch_at(
    is_eq: bool,
    imm: bool,
    target: BabyBear,
    pc: BabyBear,
    lhs: int,
    rhs_reg: int,
    rhs_c: [BabyBear; 4],
    k: int,
) -> Instruction {
    let i = if is_eq { 3 - k } else { k };
    let opcode = if is_eq && i == 0 { op_beq() } else { op_bne() };
    let b = if imm { rhs_c[i] } else { i32f(rhs_reg + i) };
    let c = if !is_eq {
        fsub(target, fadd(pc, bb(4 * i)))
    } else if i == 0 {
        fsub(target, fadd(pc, bb(12)))
    } else {
        bb(4 * (i + 1))
    };
    inst_spec(opcode, i32f(lhs + i), b, c, AS::Native, if imm { AS::Immediate } else { AS::Native })
}

pub open spec fn ext_branch_spec(
    is_eq: bool,
    imm: bool,
    target: BabyBear,
    pc: BabyBear,
    lhs: int,
    rhs_reg: int,
    rhs_c: [BabyBear; 4],
) -> Seq<Instruction> {
    Seq::new(4, |k: int| ext_branch_at(is_eq, imm, target, pc, lhs, rhs_reg, rhs_c, k))
}

pub open spec fn print_ext_spec(src: int) -> Seq<Instruction> {
    Seq::new(4, |k: int| phantom_spec(0x10, i32f(src + k), bb(0), 4))
}

/// An assembly instruction the conversion accepts: offsets embed in the field, labels name
/// one of `nlabels` blocks, range-check widths are in range, and no `Break` is left.
pub open spec fn conv_ok(i: AsmInstruction, nlabels: int) -> bool {
    match i {
        AsmInstruction::LoadFI(d, s, _, _, _) => i32_ok(d as int) && i32_ok(s as int),
        AsmInstruction::LoadEI(d, s, _, _, _) => i32_ok(d as int) && i32_ok(s as int),
        AsmInstruction::StoreFI(d, s, _, _, _) => i32_ok(d as int) && i32_ok(s as int),
        AsmInstruction::StoreEI(d, s, _, _, _) => i32_ok(d as int) && i32_ok(s as int),
        AsmInstruction::ImmF(d, _) => i32_ok(d as int),
        AsmInstruction::CopyF(d, s) => i32_ok(d as int) && i32_ok(s as int),
        AsmInstruction::AddF(d, l, r) => i32_ok(d as int) && i32_ok(l as int) && i32_ok(r as int),
        AsmInstruction::SubF(d, l, r) => i32_ok(d as int) && i32_ok(l as int) && i32_ok(r as int),
        AsmInstruction::MulF(d, l, r) => i32_ok(d as int) && i32_ok(l as int) && i32_ok(r as int),
        AsmInstruction::DivF(d, l, r) => i32_ok(d as int) && i32_ok(l as int) && i32_ok(r as int),
        AsmInstruction::AddFI(d, l, _) => i32_ok(d as int) && i32_ok(l as int),
        AsmInstruction::SubFI(d, l, _) => i32_ok(d as int) && i32_ok(l as int),
        AsmInstruction::MulFI(d, l, _) => i32_ok(d as int) && i32_ok(l as int),
        AsmInstruction::DivFI(d, l, _) => i32_ok(d as int) && i32_ok(l as int),
        AsmInstruction::SubFIN(d, _, r) => i32_ok(d as int) && i32_ok(r as int),
        AsmInstruction::DivFIN(d, _, r) => i32_ok(d as int) && i32_ok(r as int),
        AsmInstruction::AddE(d, l, r) => i32_ok(d as int) && i32_ok(l as int) && i32_ok(r as int),
        AsmInstruction::SubE(d, l, r) => i32_ok(d as int) && i32_ok(l as int) && i32_ok(r as int),
        AsmInstruction::MulE(d, l, r) => i32_ok(d as int) && i32_ok(l as int) && i32_ok(r as int),
        AsmInstruction::DivE(d, l, r) => i32_ok(d as int) && i32_ok(l as int) && i32_ok(r as int),
        AsmInstruction::Jump(d, l) => i32_ok(d as int) && l.v < nlabels,
        AsmInstruction::Bne(l, a, b) => i32_ok(a as int) && i32_ok(b as int) && l.v < nlabels,
        AsmInstruction::Beq(l, a, b) => i32_ok(a as int) && i32_ok(b as int) && l.v < nlabels,
        AsmInstruction::BneI(l, a, _) => i32_ok(a as int) && l.v < nlabels,
        AsmInstruction::BeqI(l, a, _) => i32_ok(a as int) && l.v < nlabels,
        AsmInstruction::BneE(l, a, b) => i32_ok(a as int) && i32_ok(a + 3) && i32_ok(b as int)
            && i32_ok(b + 3) && l.v < nlabels,
        AsmInstruction::BeqE(l, a, b) => i32_ok(a as int) && i32_ok(a + 3) && i32_ok(b as int)
            && i32_ok(b + 3) && l.v < nlabels,
        AsmInstruction::BneEI(l, a, _) => i32_ok(a as int) && i32_ok(a + 3) && l.v < nlabels,
        AsmInstruction::BeqEI(l, a, _) => i32_ok(a as int) && i32_ok(a + 3) && l.v < nlabels,
        AsmInstruction::Trap => true,
        AsmInstruction::Halt => true,
        AsmInstruction::Break(_) => false,
        AsmInstruction::Poseidon2Permute(d, s) => i32_ok(d as int) && i32_ok(s as int),
        AsmInstruction::Poseidon2Compress(d, a, b) => i32_ok(d as int) && i32_ok(a as int)
            && i32_ok(b as int),
        AsmInstruction::FriReducedOpening(a, b, c, d, e, f, g) => i32_ok(a as int) && i32_ok(
            b as int,
        ) && i32_ok(c as int) && i32_ok(d as int) && i32_ok(e as int) && i32_ok(f as int)
            && i32_ok(g as int),
        AsmInstruction::VerifyBatchFelt(a, b, c, d, e, f) => i32_ok(a as int) && i32_ok(b as int)
            && i32_ok(c as int) && i32_ok(d as int) && i32_ok(e as int) && i32_ok(f as int),
        AsmInstruction::VerifyBatchExt(a, b, c, d, e, f) => i32_ok(a as int) && i32_ok(b as int)
            && i32_ok(c as int) && i32_ok(d as int) && i32_ok(e as int) && i32_ok(f as int),
        AsmInstruction::RangeCheck(v, x, y) => i32_ok(v as int) && 0 <= x <= 16 && 0 <= y <= 14,
        AsmInstruction::PrintV(s) => i32_ok(s as int),
        AsmInstruction::PrintF(s) => i32_ok(s as int),
        AsmInstruction::PrintE(s) => i32_ok(s as int) && i32_ok(s + 3),
        AsmInstruction::HintInputVec => true,
        AsmInstruction::HintFelt => true,
        AsmInstruction::HintBits(s, len) => i32_ok(s as int) && len < BABY_BEAR_P,
        AsmInstruction::HintLoad => true,
        AsmInstruction::StoreHintWordI(v, _) => i32_ok(v as int),
        AsmInstruction::StoreHintExtI(v, _) => i32_ok(v as int),
        AsmInstruction::Publish(v, i) => i32_ok(v as int) && i32_ok(i as int),
        AsmInstruction::CycleTrackerStart => true,
        AsmInstruction::CycleTrackerEnd => true,
    }
}

/// The VM instructions of one assembly instruction at program counter `pc`, with `labels`
/// giving the program counter of each block.
pub open spec fn convert_spec(
    i: AsmInstruction,
    pc: BabyBear,
    labels: Seq<BabyBear>,
    options: CompilerOptions,
) -> Seq<Instruction> {
    let n = AS::Native;
    let imm = AS::Immediate;
    match i {
        AsmInstruction::LoadFI(d, s, index, size, offset) => seq![
            inst_spec(op_loadw(), i32f(d as int), fadd(mul_f(index, size), offset), i32f(s as int), n, n),
        ],
        AsmInstruction::LoadEI(d, s, index, size, offset) => seq![
            inst_spec(op_loadw4(), i32f(d as int), fadd(mul_f(index, size), offset), i32f(s as int), n, n),
        ],
        AsmInstruction::StoreFI(v, a, index, size, offset) => seq![
            inst_spec(op_storew(), i32f(v as int), fadd(mul_f(index, size), offset), i32f(a as int), n, n),
        ],
        AsmInstruction::StoreEI(v, a, index, size, offset) => seq![
            inst_spec(op_storew4(), i32f(v as int), fadd(mul_f(index, size), offset), i32f(a as int), n, n),
        ],
        AsmInstruction::Jump(d, l) => seq![
            inst_spec(op_jal(), i32f(d as int), fsub(lab(labels, l), pc), bb(0), n, imm),
        ],
        AsmInstruction::Bne(l, a, b) => seq![
            inst_spec(op_bne(), i32f(a as int), i32f(b as int), fsub(lab(labels, l), pc), n, n),
        ],
        AsmInstruction::BneI(l, a, b) => seq![
            inst_spec(op_bne(), i32f(a as int), b, fsub(lab(labels, l), pc), n, imm),
        ],
        AsmInstruction::Beq(l, a, b) => seq![
            inst_spec(op_beq(), i32f(a as int), i32f(b as int), fsub(lab(labels, l), pc), n, n),
        ],
        AsmInstruction::BeqI(l, a, b) => seq![
            inst_spec(op_beq(), i32f(a as int), b, fsub(lab(labels, l), pc), n, imm),
        ],
        AsmInstruction::BneE(l, a, b) => ext_branch_spec(false, false, lab(labels, l), pc, a as int, b as int, [bb(0), bb(0), bb(0), bb(0)]),
        AsmInstruction::BneEI(l, a, c) => ext_branch_spec(false, true, lab(labels, l), pc, a as int, 0, c),
        AsmInstruction::BeqE(l, a, b) => ext_branch_spec(true, false, lab(labels, l), pc, a as int, b as int, [bb(0), bb(0), bb(0), bb(0)]),
        AsmInstruction::BeqEI(l, a, c) => ext_branch_spec(true, true, lab(labels, l), pc, a as int, 0, c),
        AsmInstruction::Trap => seq![
            phantom_spec(1, bb(0), bb(0), 0),
            inst_spec(op_terminate(), bb(0), bb(0), bb(1), imm, imm),
        ],
        AsmInstruction::Halt => seq![inst_spec(op_terminate(), bb(0), bb(0), bb(0), imm, imm)],
        AsmInstruction::HintInputVec => seq![phantom_spec(0x11, bb(0), bb(0), 0)],
        AsmInstruction::HintFelt => seq![phantom_spec(0x14, bb(0), bb(0), 0)],
        AsmInstruction::HintBits(s, len) => seq![phantom_spec(0x12, i32f(s as int), bb(len as int), 4)],
        AsmInstruction::HintLoad => seq![phantom_spec(0x13, bb(0), bb(0), 0)],
        AsmInstruction::StoreHintWordI(v, offset) => seq![
            inst_spec(op_hint_storew(), bb(0), offset, i32f(v as int), n, n),
        ],
        AsmInstruction::StoreHintExtI(v, offset) => seq![
            inst_spec(op_hint_storew4(), bb(0), offset, i32f(v as int), n, n),
        ],
        AsmInstruction::PrintV(s) => seq![phantom_spec(0x10, i32f(s as int), bb(0), 4)],
        AsmInstruction::PrintF(s) => seq![phantom_spec(0x10, i32f(s as int), bb(0), 4)],
        AsmInstruction::PrintE(s) => print_ext_spec(s as int),
        AsmInstruction::ImmF(d, v) => seq![inst_med_spec(op_add(), i32f(d as int), v, bb(0), n, imm, n)],
        AsmInstruction::CopyF(d, s) => seq![
            inst_med_spec(op_add(), i32f(d as int), i32f(s as int), bb(0), n, n, imm),
        ],
        AsmInstruction::AddF(d, l, r) => seq![
            inst_med_spec(op_add(), i32f(d as int), i32f(l as int), i32f(r as int), n, n, n),
        ],
        AsmInstruction::SubF(d, l, r) => seq![
            inst_med_spec(op_sub(), i32f(d as int), i32f(l as int), i32f(r as int), n, n, n),
        ],
        AsmInstruction::MulF(d, l, r) => seq![
            inst_med_spec(op_mul(), i32f(d as int), i32f(l as int), i32f(r as int), n, n, n),
        ],
        AsmInstruction::DivF(d, l, r) => seq![
            inst_med_spec(op_div(), i32f(d as int), i32f(l as int), i32f(r as int), n, n, n),
        ],
        AsmInstruction::AddFI(d, l, r) => seq![
            inst_med_spec(op_add(), i32f(d as int), i32f(l as int), r, n, n, imm),
        ],
        AsmInstruction::SubFI(d, l, r) => seq![
            inst_med_spec(op_sub(), i32f(d as int), i32f(l as int), r, n, n, imm),
        ],
        AsmInstruction::MulFI(d, l, r) => seq![
            inst_med_spec(op_mul(), i32f(d as int), i32f(l as int), r, n, n, imm),
        ],
        AsmInstruction::DivFI(d, l, r) => seq![
            inst_med_spec(op_div(), i32f(d as int), i32f(l as int), r, n, n, imm),
        ],
        AsmInstruction::SubFIN(d, l, r) => seq![
            inst_med_spec(op_sub(), i32f(d as int), l, i32f(r as int), n, imm, n),
        ],
        AsmInstruction::DivFIN(d, l, r) => seq![
            inst_med_spec(op_div(), i32f(d as int), l, i32f(r as int), n, imm, n),
        ],
        AsmInstruction::AddE(d, l, r) => seq![
            inst_spec(op_fe4add(), i32f(d as int), i32f(l as int), i32f(r as int), n, n),
        ],
        AsmInstruction::SubE(d, l, r) => seq![
            inst_spec(op_fe4sub(), i32f(d as int), i32f(l as int), i32f(r as int), n, n),
        ],
        AsmInstruction::MulE(d, l, r) => seq![
            inst_spec(op_bbe4mul(), i32f(d as int), i32f(l as int), i32f(r as int), n, n),
        ],
        AsmInstruction::DivE(d, l, r) => seq![
            inst_spec(op_bbe4div(), i32f(d as int), i32f(l as int), i32f(r as int), n, n),
        ],
        AsmInstruction::Poseidon2Compress(d, a, b) => seq![
            inst_spec(op_comp_pos2(), i32f(d as int), i32f(a as int), i32f(b as int), n, n),
        ],
        AsmInstruction::Poseidon2Permute(d, s) => seq![
            inst_spec(op_perm_pos2(), i32f(d as int), i32f(s as int), bb(0), n, n),
        ],
        AsmInstruction::CycleTrackerStart => if options.enable_cycle_tracker {
            seq![phantom_spec(2, bb(0), bb(0), 0)]
        } else {
            Seq::empty()
        },
        AsmInstruction::CycleTrackerEnd => if options.enable_cycle_tracker {
            seq![phantom_spec(3, bb(0), bb(0), 0)]
        } else {
            Seq::empty()
        },
        AsmInstruction::Publish(v, idx) => seq![
            inst_med_spec(op_publish(), bb(0), i32f(v as int), i32f(idx as int), imm, n, n),
        ],
        AsmInstruction::FriReducedOpening(a, b, len, alpha, res, hint_id, is_init) => seq![
            Instruction {
                opcode: VmOpcode { v: op_fri() },
                a: i32f(a as int),
                b: i32f(b as int),
                c: i32f(len as int),
                d: i32f(alpha as int),
                e: i32f(res as int),
                f: i32f(hint_id as int),
                g: i32f(is_init as int),
            },
        ],
        AsmInstruction::VerifyBatchFelt(dim, opened, opened_len, sibling, index, commit) => seq![
            Instruction {
                opcode: VmOpcode { v: op_verify_batch() },
                a: i32f(dim as int),
                b: i32f(opened as int),
                c: i32f(opened_len as int),
                d: i32f(sibling as int),
                e: i32f(index as int),
                f: i32f(commit as int),
                g: bb(1),
            },
        ],
        AsmInstruction::VerifyBatchExt(dim, opened, opened_len, sibling, index, commit) => seq![
            Instruction {
                opcode: VmOpcode { v: op_verify_batch() },
                a: i32f(dim as int),
                b: i32f(opened as int),
                c: i32f(opened_len as int),
                d: i32f(sibling as int),
                e: i32f(index as int),
                f: i32f(commit as int),
                g: bb(field_inv(4)),
            },
        ],
        AsmInstruction::RangeCheck(v, x, y) => seq![
            inst_spec(op_range_check(), i32f(v as int), i32f(x as int), i32f(y as int), n, imm),
        ],
        AsmInstruction::Break(_) => Seq::empty(),
    }
}

/// `x * y` in the field.
pub open spec fn mul_f(x: BabyBear, y: BabyBear) -> BabyBear {
    BabyBear { v: modp(x.val() * y.val()) as u32 }
}

/// The number of VM instructions an assembly instruction becomes.
pub open spec fn conv_len(i: AsmInstruction, options: CompilerOptions) -> nat {
    match i {
        AsmInstruction::BneE(..) | AsmInstruction::BneEI(..) | AsmInstruction::BeqE(..)
        | AsmInstruction::BeqEI(..) | AsmInstruction::PrintE(..) => 4,
        AsmInstruction::Trap => 2,
        AsmInstruction::Break(_) => 0,
        AsmInstruction::CycleTrackerStart | AsmInstruction::CycleTrackerEnd => if options.enable_cycle_tracker {
            1
        } else {
            0
        },
        _ => 1,
    }
}

pub proof fn lemma_conv_len(
    i: AsmInstruction,
    pc: BabyBear,
    labels: Seq<BabyBear>,
    options: CompilerOptions,
)
    ensures
        convert_spec(i, pc, labels, options).len() == conv_len(i, options),
{
}

fn ext_branch(
    is_eq: bool,
    imm: bool,
    target: BabyBear,
    pc: BabyBear,
    lhs: i32,
    rhs_reg: i32,
    rhs_c: [BabyBear; 4],
) -> (r: Vec<Instruction>)
    requires
        i32_ok(lhs as int),
        i32_ok(lhs + 3),
        !imm ==> i32_ok(rhs_reg as int) && i32_ok(rhs_reg + 3),
    ensures
        r@ == ext_branch_spec(is_eq, imm, target, pc, lhs as int, rhs_reg as int, rhs_c),
{
    let mut r: Vec<Instruction> = Vec::new();
    let mut k: usize = 0;
    while k < 4
        invariant
            k <= 4,
            i32_ok(lhs as int),
            i32_ok(lhs + 3),
            !imm ==> i32_ok(rhs_reg as int) && i32_ok(rhs_reg + 3),
            r@.len() == k,
            forall|j: int|
                0 <= j < k ==> r@[j] == ext_branch_at(
                    is_eq,
                    imm,
                    target,
                    pc,
                    lhs as int,
                    rhs_reg as int,
                    rhs_c,
                    j,
                ),
        decreases 4 - k,
    {
        let i: usize = if is_eq {
            3 - k
        } else {
            k
        };
        let opcode = if is_eq && i == 0 {
            NativeBranchEqualOpcode(BranchEqualOpcode::BEQ).global_opcode()
        } else {
            NativeBranchEqualOpcode(BranchEqualOpcode::BNE).global_opcode()
        };
        let b = if imm {
            rhs_c[i]
        } else {
            i32_f(rhs_reg + i as i32)
        };
        let c = if !is_eq {
            target.sub(pc.add(BabyBear::from_canonical_u32((i as u32) * DEFAULT_PC_STEP)))
        } else if i == 0 {
            target.sub(pc.add(BabyBear::from_canonical_u32(3 * DEFAULT_PC_STEP)))
        } else {
            BabyBear::from_canonical_u32(((i + 1) as u32) * DEFAULT_PC_STEP)
        };
        let e = if imm {
            AS::Immediate
        } else {
            AS::Native
        };
        r.push(inst(opcode, i32_f(lhs + i as i32), b, c, AS::Native, e));
        k = k + 1;
    }
    assert(r@ =~= ext_branch_spec(is_eq, imm, target, pc, lhs as int, rhs_reg as int, rhs_c));
    r
}

fn print_ext(src: i32) -> (r: Vec<Instruction>)
    requires
        i32_ok(src as int),
        i32_ok(src + 3),
    ensures
        r@ == print_ext_spec(src as int),
{
    let mut r: Vec<Instruction> = Vec::new();
    let mut k: i32 = 0;
    while k < 4
        invariant
            0 <= k <= 4,
            i32_ok(src as int),
            i32_ok(src + 3),
            r@.len() == k,
            forall|j: int| 0 <= j < k ==> r@[j] == phantom_spec(0x10, i32f(src + j), bb(0), 4),
        decreases 4 - k,
    {
        r.push(Instruction::phantom(NativePhantom::Print.discriminant(), i32_f(src + k), BabyBear::zero(), 4));
        k = k + 1;
    }
    assert(r@ =~= print_ext_spec(src as int));
    r
}

/// The program counter of a block.
fn label_pc(labels: &Vec<BabyBear>, l: BabyBear) -> (r: BabyBear)
    requires
        l.v < labels@.len(),
    ensures
        r == lab(labels@, l),
{
    labels[l.v as usize]
}

/// Converts one assembly instruction at program counter `pc`; `labels` holds the program
/// counter of each block.
pub fn convert_instruction(
    instruction: AsmInstruction,
    pc: BabyBear,
    labels: &Vec<BabyBear>,
    options: &CompilerOptions,
) -> (r: Vec<Instruction>)
    requires
        conv_ok(instruction, labels@.len() as int),
    ensures
        r@ == convert_spec(instruction, pc, labels@, *options),
{
    let n = AS::Native;
    let imm = AS::Immediate;
    let add = FieldArithmeticOpcode::ADD.global_opcode();
    let sub = FieldArithmeticOpcode::SUB.global_opcode();
    let mul = FieldArithmeticOpcode::MUL.global_opcode();
    let div = FieldArithmeticOpcode::DIV.global_opcode();
    let beq = NativeBranchEqualOpcode(BranchEqualOpcode::BEQ).global_opcode();
    let bne = NativeBranchEqualOpcode(BranchEqualOpcode::BNE).global_opcode();
    let zero = BabyBear::zero();
    let zeros = [zero, zero, zero, zero];
    let r = match instruction {
        AsmInstruction::LoadFI(d, s, index, size, offset) => vec![
            inst(NativeLoadStoreOpcode::LOADW.global_opcode(), i32_f(d), index.mul(size).add(offset), i32_f(s), n, n),
        ],
        AsmInstruction::LoadEI(d, s, index, size, offset) => vec![
            inst(NativeLoadStore4Opcode(NativeLoadStoreOpcode::LOADW).global_opcode(), i32_f(d), index.mul(size).add(offset), i32_f(s), n, n),
        ],
        AsmInstruction::StoreFI(v, a, index, size, offset) => vec![
            inst(NativeLoadStoreOpcode::STOREW.global_opcode(), i32_f(v), index.mul(size).add(offset), i32_f(a), n, n),
        ],
        AsmInstruction::StoreEI(v, a, index, size, offset) => vec![
            inst(NativeLoadStore4Opcode(NativeLoadStoreOpcode::STOREW).global_opcode(), i32_f(v), index.mul(size).add(offset), i32_f(a), n, n),
        ],
        AsmInstruction::Jump(d, l) => vec![
            inst(NativeJalOpcode::JAL.global_opcode(), i32_f(d), label_pc(labels, l).sub(pc), zero, n, imm),
        ],
        AsmInstruction::Bne(l, a, b) => vec![
            inst(bne, i32_f(a), i32_f(b), label_pc(labels, l).sub(pc), n, n),
        ],
        AsmInstruction::BneI(l, a, b) => vec![inst(bne, i32_f(a), b, label_pc(labels, l).sub(pc), n, imm)],
        AsmInstruction::Beq(l, a, b) => vec![
            inst(beq, i32_f(a), i32_f(b), label_pc(labels, l).sub(pc), n, n),
        ],
        AsmInstruction::BeqI(l, a, b) => vec![inst(beq, i32_f(a), b, label_pc(labels, l).sub(pc), n, imm)],
        AsmInstruction::BneE(l, a, b) => ext_branch(false, false, label_pc(labels, l), pc, a, b, zeros),
        AsmInstruction::BneEI(l, a, c) => ext_branch(false, true, label_pc(labels, l), pc, a, 0, c),
        AsmInstruction::BeqE(l, a, b) => ext_branch(true, false, label_pc(labels, l), pc, a, b, zeros),
        AsmInstruction::BeqEI(l, a, c) => ext_branch(true, true, label_pc(labels, l), pc, a, 0, c),
        AsmInstruction::Trap => vec![
            Instruction::phantom(SysPhantom::DebugPanic.discriminant(), zero, zero, 0),
            inst(SystemOpcode::TERMINATE.global_opcode(), zero, zero, BabyBear::one(), imm, imm),
        ],
        AsmInstruction::Halt => vec![
            inst(SystemOpcode::TERMINATE.global_opcode(), zero, zero, zero, imm, imm),
        ],
        AsmInstruction::HintInputVec => vec![
            Instruction::phantom(NativePhantom::HintInput.discriminant(), zero, zero, 0),
        ],
        AsmInstruction::HintFelt => vec![
            Instruction::phantom(NativePhantom::HintFelt.discriminant(), zero, zero, 0),
        ],
        AsmInstruction::HintBits(src, len) => vec![
            Instruction::phantom(NativePhantom::HintBits.discriminant(), i32_f(src), BabyBear::from_canonical_u32(len), 4),
        ],
        AsmInstruction::HintLoad => vec![
            Instruction::phantom(NativePhantom::HintLoad.discriminant(), zero, zero, 0),
        ],
        AsmInstruction::StoreHintWordI(v, offset) => vec![
            inst(NativeLoadStoreOpcode::HINT_STOREW.global_opcode(), zero, offset, i32_f(v), n, n),
        ],
        AsmInstruction::StoreHintExtI(v, offset) => vec![
            inst(NativeLoadStore4Opcode(NativeLoadStoreOpcode::HINT_STOREW).global_opcode(), zero, offset, i32_f(v), n, n),
        ],
        AsmInstruction::PrintV(src) => vec![
            Instruction::phantom(NativePhantom::Print.discriminant(), i32_f(src), zero, 4),
        ],
        AsmInstruction::PrintF(src) => vec![
            Instruction::phantom(NativePhantom::Print.discriminant(), i32_f(src), zero, 4),
        ],
        AsmInstruction::PrintE(src) => print_ext(src),
        AsmInstruction::ImmF(d, v) => vec![inst_med(add, i32_f(d), v, zero, n, imm, n)],
        AsmInstruction::CopyF(d, s) => vec![inst_med(add, i32_f(d), i32_f(s), zero, n, n, imm)],
        AsmInstruction::AddF(d, l, r) => vec![inst_med(add, i32_f(d), i32_f(l), i32_f(r), n, n, n)],
        AsmInstruction::SubF(d, l, r) => vec![inst_med(sub, i32_f(d), i32_f(l), i32_f(r), n, n, n)],
        AsmInstruction::MulF(d, l, r) => vec![inst_med(mul, i32_f(d), i32_f(l), i32_f(r), n, n, n)],
        AsmInstruction::DivF(d, l, r) => vec![inst_med(div, i32_f(d), i32_f(l), i32_f(r), n, n, n)],
        AsmInstruction::AddFI(d, l, r) => vec![inst_med(add, i32_f(d), i32_f(l), r, n, n, imm)],
        AsmInstruction::SubFI(d, l, r) => vec![inst_med(sub, i32_f(d), i32_f(l), r, n, n, imm)],
        AsmInstruction::MulFI(d, l, r) => vec![inst_med(mul, i32_f(d), i32_f(l), r, n, n, imm)],
        AsmInstruction::DivFI(d, l, r) => vec![inst_med(div, i32_f(d), i32_f(l), r, n, n, imm)],
        AsmInstruction::SubFIN(d, l, r) => vec![inst_med(sub, i32_f(d), l, i32_f(r), n, imm, n)],
        AsmInstruction::DivFIN(d, l, r) => vec![inst_med(div, i32_f(d), l, i32_f(r), n, imm, n)],
        AsmInstruction::AddE(d, l, r) => vec![
            inst(FieldExtensionOpcode::FE4ADD.global_opcode(), i32_f(d), i32_f(l), i32_f(r), n, n),
        ],
        AsmInstruction::SubE(d, l, r) => vec![
            inst(FieldExtensionOpcode::FE4SUB.global_opcode(), i32_f(d), i32_f(l), i32_f(r), n, n),
        ],
        AsmInstruction::MulE(d, l, r) => vec![
            inst(FieldExtensionOpcode::BBE4MUL.global_opcode(), i32_f(d), i32_f(l), i32_f(r), n, n),
        ],
        AsmInstruction::DivE(d, l, r) => vec![
            inst(FieldExtensionOpcode::BBE4DIV.global_opcode(), i32_f(d), i32_f(l), i32_f(r), n, n),
        ],
        AsmInstruction::Poseidon2Compress(d, a, b) => vec![
            inst(Poseidon2Opcode::COMP_POS2.global_opcode(), i32_f(d), i32_f(a), i32_f(b), n, n),
        ],
        AsmInstruction::Poseidon2Permute(d, s) => vec![
            inst(Poseidon2Opcode::PERM_POS2.global_opcode(), i32_f(d), i32_f(s), zero, n, n),
        ],
        AsmInstruction::CycleTrackerStart => if options.enable_cycle_tracker {
            vec![Instruction::debug(SysPhantom::CtStart.discriminant())]
        } else {
            Vec::new()
        },
        AsmInstruction::CycleTrackerEnd => if options.enable_cycle_tracker {
            vec![Instruction::debug(SysPhantom::CtEnd.discriminant())]
        } else {
            Vec::new()
        },
        AsmInstruction::Publish(v, idx) => vec![
            inst_med(PublishOpcode::PUBLISH.global_opcode(), zero, i32_f(v), i32_f(idx), imm, n, n),
        ],
        AsmInstruction::FriReducedOpening(a, b, len, alpha, res, hint_id, is_init) => vec![
            Instruction {
                opcode: FriOpcode::FRI_REDUCED_OPENING.global_opcode(),
                a: i32_f(a),
                b: i32_f(b),
                c: i32_f(len),
                d: i32_f(alpha),
                e: i32_f(res),
                f: i32_f(hint_id),
                g: i32_f(is_init),
            },
        ],
        AsmInstruction::VerifyBatchFelt(dim, opened, opened_len, sibling, index, commit) => vec![
            Instruction {
                opcode: VerifyBatchOpcode::VERIFY_BATCH.global_opcode(),
                a: i32_f(dim),
                b: i32_f(opened),
                c: i32_f(opened_len),
                d: i32_f(sibling),
                e: i32_f(index),
                f: i32_f(commit),
                g: BabyBear::one(),
            },
        ],
        AsmInstruction::VerifyBatchExt(dim, opened, opened_len, sibling, index, commit) => vec![
            Instruction {
                opcode: VerifyBatchOpcode::VERIFY_BATCH.global_opcode(),
                a: i32_f(dim),
                b: i32_f(opened),
                c: i32_f(opened_len),
                d: i32_f(sibling),
                e: i32_f(index),
                f: i32_f(commit),
                g: BabyBear::from_canonical_usize(4).inverse(),
            },
        ],
        AsmInstruction::RangeCheck(v, x, y) => vec![
            inst(NativeRangeCheckOpcode::RANGE_CHECK.global_opcode(), i32_f(v), i32_f(x), i32_f(y), n, imm),
        ],
        AsmInstruction::Break(_) => Vec::new(),
    };
    assert(r@ =~= convert_spec(instruction, pc, labels@, *options));
    r
}

/// The number of VM instructions of a block.
pub open spec fn block_len(b: Seq<AsmInstruction>, options: CompilerOptions) -> nat
    decreases b.len(),
{
    if b.len() == 0 {
        0
    } else {
        block_len(b.drop_last(), options) + conv_len(b.last(), options)
    }
}

/// The number of VM instructions of a sequence of blocks.
pub open spec fn blocks_len(bs: Seq<Seq<AsmInstruction>>, options: CompilerOptions) -> nat
    decreases bs.len(),
{
    if bs.len() == 0 {
        0
    } else {
        blocks_len(bs.drop_last(), options) + block_len(bs.last(), options)
    }
}

/// The program counter of each block: the program starts with one initialising instruction,
/// and each block starts after the instructions of all blocks before it.
pub open spec fn block_starts(bs: Seq<Seq<AsmInstruction>>, options: CompilerOptions) -> Seq<
    BabyBear,
> {
    Seq::new(
        bs.len(),
        |k: int| bb(DEFAULT_PC_STEP * (1 + blocks_len(bs.take(k), options))),
    )
}

/// Appends the instructions of block `b` to `acc`, each at the program counter of its place.
pub open spec fn emit_block(
    b: Seq<AsmInstruction>,
    labels: Seq<BabyBear>,
    options: CompilerOptions,
    acc: Seq<Instruction>,
) -> Seq<Instruction>
    decreases b.len(),
{
    if b.len() == 0 {
        acc
    } else {
        let prev = emit_block(b.drop_last(), labels, options, acc);
        prev + convert_spec(b.last(), bb(DEFAULT_PC_STEP * prev.len()), labels, options)
    }
}

pub open spec fn emit_blocks(
    bs: Seq<Seq<AsmInstruction>>,
    labels: Seq<BabyBear>,
    options: CompilerOptions,
    acc: Seq<Instruction>,
) -> Seq<Instruction>
    decreases bs.len(),
{
    if bs.len() == 0 {
        acc
    } else {
        emit_block(bs.last(), labels, options, emit_blocks(bs.drop_last(), labels, options, acc))
    }
}

/// `mem[0] <- 0`, the first instruction of every program.
pub open spec fn init_instruction() -> Instruction {
    inst_med_spec(op_add(), bb(0), bb(0), bb(0), AS::Native, AS::Immediate, AS::Immediate)
}

/// The converted program.
pub open spec fn program_spec(bs: Seq<Seq<AsmInstruction>>, options: CompilerOptions) -> Seq<
    Instruction,
> {
    emit_blocks(bs, block_starts(bs, options), options, seq![init_instruction()])
}

/// A program the conversion accepts: every instruction is accepted with the blocks as labels,
/// and every program counter is a canonical field element.
pub open spec fn program_ok(bs: Seq<Seq<AsmInstruction>>, options: CompilerOptions) -> bool {
    &&& forall|k: int, j: int|
        0 <= k < bs.len() && 0 <= j < bs[k].len() ==> conv_ok(#[trigger] bs[k][j], bs.len() as int)
    &&& DEFAULT_PC_STEP * (1 + blocks_len(bs, options)) < BABY_BEAR_P
}

pub proof fn lemma_block_len_prefix(b: Seq<AsmInstruction>, options: CompilerOptions, j: int)
    requires
        0 <= j < b.len(),
    ensures
        block_len(b.take(j + 1), options) == block_len(b.take(j), options) + conv_len(b[j], options),
        block_len(b.take(j + 1), options) <= block_len(b, options),
    decreases b.len() - j,
{
    assert(b.take(j + 1).drop_last() =~= b.take(j));
    if j + 1 < b.len() {
        lemma_block_len_prefix(b, options, j + 1);
    } else {
        assert(b.take(j + 1) =~= b);
    }
}

pub proof fn lemma_blocks_len_prefix(bs: Seq<Seq<AsmInstruction>>, options: CompilerOptions, k: int)
    requires
        0 <= k < bs.len(),
    ensures
        blocks_len(bs.take(k + 1), options) == blocks_len(bs.take(k), options) + block_len(
            bs[k],
            options,
        ),
        blocks_len(bs.take(k + 1), options) <= blocks_len(bs, options),
    decreases bs.len() - k,
{
    assert(bs.take(k + 1).drop_last() =~= bs.take(k));
    if k + 1 < bs.len() {
        lemma_blocks_len_prefix(bs, options, k + 1);
    } else {
        assert(bs.take(k + 1) =~= bs);
    }
}

pub proof fn lemma_emit_block_len(
    b: Seq<AsmInstruction>,
    labels: Seq<BabyBear>,
    options: CompilerOptions,
    acc: Seq<Instruction>,
)
    ensures
        emit_block(b, labels, options, acc).len() == acc.len() + block_len(b, options),
    decreases b.len(),
{
    if b.len() > 0 {
        lemma_emit_block_len(b.drop_last(), labels, options, acc);
        let prev = emit_block(b.drop_last(), labels, options, acc);
        lemma_conv_len(b.last(), bb(DEFAULT_PC_STEP * prev.len()), labels, options);
    }
}

pub proof fn lemma_emit_blocks_len(
    bs: Seq<Seq<AsmInstruction>>,
    labels: Seq<BabyBear>,
    options: CompilerOptions,
    acc: Seq<Instruction>,
)
    ensures
        emit_blocks(bs, labels, options, acc).len() == acc.len() + blocks_len(bs, options),
    decreases bs.len(),
{
    if bs.len() > 0 {
        lemma_emit_blocks_len(bs.drop_last(), labels, options, acc);
        lemma_emit_block_len(bs.last(), labels, options, emit_blocks(bs.drop_last(), labels, options, acc));
    }
}

/// The number of VM instructions an assembly instruction becomes.
fn converted_len(instruction: &AsmInstruction, options: &CompilerOptions) -> (r: u32)
    ensures
        r == conv_len(*instruction, *options),
{
    match instruction {
        AsmInstruction::BneE(..) | AsmInstruction::BneEI(..) | AsmInstruction::BeqE(..)
        | AsmInstruction::BeqEI(..) | AsmInstruction::PrintE(..) => 4,
        AsmInstruction::Trap => 2,
        AsmInstruction::Break(_) => 0,
        AsmInstruction::CycleTrackerStart | AsmInstruction::CycleTrackerEnd => if options.enable_cycle_tracker {
            1
        } else {
            0
        },
        _ => 1,
    }
}

/// The program counter of each block.
fn compute_block_starts(program: &AssemblyCode, options: &CompilerOptions) -> (r: Vec<BabyBear>)
    requires
        program_ok(program.blocks_view(), *options),
    ensures
        r@ == block_starts(program.blocks_view(), *options),
{
    let ghost bs = program.blocks_view();
    let mut starts: Vec<BabyBear> = Vec::new();
    let mut pc_idx: u32 = 1;
    let mut k: usize = 0;
    while k < program.blocks.len()
        invariant
            bs == program.blocks_view(),
            program_ok(bs, *options),
            k <= bs.len(),
            pc_idx == 1 + blocks_len(bs.take(k as int), *options),
            starts@ =~= block_starts(bs, *options).take(k as int),
        decreases bs.len() - k,
    {
        proof {
            lemma_blocks_len_prefix(bs, *options, k as int);
        }
        starts.push(BabyBear::from_canonical_u32(pc_idx * DEFAULT_PC_STEP));
        let block = &program.blocks[k];
        assert(block.0@ == bs[k as int]);
        let mut j: usize = 0;
        while j < block.0.len()
            invariant
                bs == program.blocks_view(),
                program_ok(bs, *options),
                k < bs.len(),
                block.0@ == bs[k as int],
                j <= block.0@.len(),
                pc_idx == 1 + blocks_len(bs.take(k as int), *options) + block_len(
                    bs[k as int].take(j as int),
                    *options,
                ),
                blocks_len(bs.take(k + 1), *options) == blocks_len(bs.take(k as int), *options)
                    + block_len(bs[k as int], *options),
                blocks_len(bs.take(k + 1), *options) <= blocks_len(bs, *options),
            decreases block.0@.len() - j,
        {
            proof {
                lemma_block_len_prefix(bs[k as int], *options, j as int);
            }
            pc_idx = pc_idx + converted_len(&block.0[j], options);
            j = j + 1;
        }
        assert(bs[k as int].take(j as int) =~= bs[k as int]);
        k = k + 1;
    }
    assert(bs.take(k as int) =~= bs);
    starts
}

/// Converts a compiled program: `mem[0] <- 0`, then every block in order, with each label
/// resolved to the program counter where its block begins.
pub fn convert_program(program: AssemblyCode, options: CompilerOptions) -> (r: Vec<Instruction>)
    requires
        program_ok(program.blocks_view(), options),
    ensures
        r@ == program_spec(program.blocks_view(), options),
{
    let ghost bs = program.blocks_view();
    let labels = compute_block_starts(&program, &options);
    let init = inst_med(
        FieldArithmeticOpcode::ADD.global_opcode(),
        BabyBear::zero(),
        BabyBear::zero(),
        BabyBear::zero(),
        AS::Native,
        AS::Immediate,
        AS::Immediate,
    );
    let mut result: Vec<Instruction> = Vec::new();
    result.push(init);
    let mut k: usize = 0;
    while k < program.blocks.len()
        invariant
            bs == program.blocks_view(),
            program_ok(bs, options),
            labels@ == block_starts(bs, options),
            k <= bs.len(),
            result@ == emit_blocks(bs.take(k as int), labels@, options, seq![init_instruction()]),
        decreases bs.len() - k,
    {
        proof {
            lemma_blocks_len_prefix(bs, options, k as int);
            lemma_emit_blocks_len(bs.take(k as int), labels@, options, seq![init_instruction()]);
        }
        let block = &program.blocks[k];
        assert(block.0@ == bs[k as int]);
        let ghost before = result@;
        let mut j: usize = 0;
        while j < block.0.len()
            invariant
                bs == program.blocks_view(),
                program_ok(bs, options),
                labels@ == block_starts(bs, options),
                k < bs.len(),
                block.0@ == bs[k as int],
                j <= block.0@.len(),
                before.len() == 1 + blocks_len(bs.take(k as int), options),
                blocks_len(bs.take(k + 1), options) == blocks_len(bs.take(k as int), options)
                    + block_len(bs[k as int], options),
                blocks_len(bs.take(k + 1), options) <= blocks_len(bs, options),
                result@ == emit_block(bs[k as int].take(j as int), labels@, options, before),
            decreases block.0@.len() - j,
        {
            proof {
                lemma_block_len_prefix(bs[k as int], options, j as int);
                lemma_emit_block_len(bs[k as int].take(j as int), labels@, options, before);
                assert(bs[k as int].take(j + 1).drop_last() =~= bs[k as int].take(j as int));
            }
            let cur_pc: u32 = (result.len() as u32) * DEFAULT_PC_STEP;
            let instruction = block.0[j];
            assert(conv_ok(bs[k as int][j as int], bs.len() as int));
            let mut local = convert_instruction(
                instruction,
                BabyBear::from_canonical_u32(cur_pc),
                &labels,
                &options,
            );
            result.append(&mut local);
            j = j + 1;
        }
        assert(bs[k as int].take(j as int) =~= bs[k as int]);
        assert(bs.take(k + 1).drop_last() =~= bs.take(k as int));
        k = k + 1;
    }
    assert(bs.take(k as int) =~= bs);
    result
}

/// `a` is a prefix of `b`.
pub open spec fn prefix_of(a: Seq<Instruction>, b: Seq<Instruction>) -> bool {
    a.len() <= b.len() && forall|i: int| 0 <= i < a.len() ==> #[trigger] b[i] == a[i]
}

proof fn lemma_emit_block_extends(
    b: Seq<AsmInstruction>,
    labels: Seq<BabyBear>,
    options: CompilerOptions,
    acc: Seq<Instruction>,
)
    ensures
        prefix_of(acc, emit_block(b, labels, options, acc)),
    decreases b.len(),
{
    if b.len() > 0 {
        lemma_emit_block_extends(b.drop_last(), labels, options, acc);
    }
}

proof fn lemma_emit_blocks_prefix(
    bs: Seq<Seq<AsmInstruction>>,
    labels: Seq<BabyBear>,
    options: CompilerOptions,
    acc: Seq<Instruction>,
    k: int,
)
    requires
        0 <= k <= bs.len(),
    ensures
        prefix_of(emit_blocks(bs.take(k), labels, options, acc), emit_blocks(bs, labels, options, acc)),
    decreases bs.len() - k,
{
    if k == bs.len() {
        assert(bs.take(k) =~= bs);
    } else {
        lemma_emit_blocks_prefix(bs, labels, options, acc, k + 1);
        assert(bs.take(k + 1).drop_last() =~= bs.take(k));
        lemma_emit_block_extends(bs[k], labels, options, emit_blocks(bs.take(k), labels, options, acc));
    }
}

/// Every label resolves to the program counter at which the code of its block begins: the
/// converted program begins with the code of the blocks before block `k`, and that code
/// holds exactly `starts[k] / DEFAULT_PC_STEP` instructions.
pub proof fn lemma_label_is_block_start(bs: Seq<Seq<AsmInstruction>>, options: CompilerOptions, k: int)
    requires
        program_ok(bs, options),
        0 <= k < bs.len(),
    ensures
        block_starts(bs, options)[k].v == DEFAULT_PC_STEP * emit_blocks(
            bs.take(k),
            block_starts(bs, options),
            options,
            seq![init_instruction()],
        ).len(),
        prefix_of(
            emit_blocks(bs.take(k), block_starts(bs, options), options, seq![init_instruction()]),
            program_spec(bs, options),
        ),
{
    let labels = block_starts(bs, options);
    lemma_emit_blocks_len(bs.take(k), labels, options, seq![init_instruction()]);
    lemma_blocks_len_prefix(bs, options, k);
    lemma_emit_blocks_prefix(bs, labels, options, seq![init_instruction()], k);
    assert(blocks_len(bs.take(k), options) <= blocks_len(bs, options)) by {
        if k > 0 {
            lemma_blocks_len_prefix(bs, options, k - 1);
        }
    }
}

/// An operand of the field-arithmetic chip: the pointer itself in address space 0, the cell it
/// points to elsewhere.
pub open spec fn vm_operand(m: MemoryModel, p: BabyBear, space: BabyBear) -> int {
    if space.v == 0 {
        p.val()
    } else {
        cell(m, space.v, p.val()).val()
    }
}

/// What the field-arithmetic chip does with an instruction: `[a]_d <- [b]_e op [c]_f`, the
/// operation chosen by the opcode (add, sub, mul, div); the address space, address and value
/// written, or `None` for another opcode.
pub open spec fn vm_field_arith(m: MemoryModel, i: Instruction) -> Option<(u32, int, int)> {
    let x = vm_operand(m, i.b, i.e);
    let y = vm_operand(m, i.c, i.f);
    if i.opcode.v == 0x130 {
        Some((i.d.v, i.a.val(), modp(x + y)))
    } else if i.opcode.v == 0x131 {
        Some((i.d.v, i.a.val(), modp(x - y)))
    } else if i.opcode.v == 0x132 {
        Some((i.d.v, i.a.val(), modp(x * y)))
    } else if i.opcode.v == 0x133 {
        Some((i.d.v, i.a.val(), modp(x * field_inv(modp(y)))))
    } else {
        None
    }
}

/// The frame a native memory holds: the cell at offset `o` is the native cell at the field
/// address of `o`.
pub open spec fn frame_of(m: MemoryModel) -> spec_fn(int) -> int {
    |o: int| cell(m, 4, modp(o)).val()
}

/// The destination offset of a field instruction.
pub open spec fn field_dest(i: AsmInstruction) -> Option<int> {
    match i {
        AsmInstruction::ImmF(d, _) => Some(d as int),
        AsmInstruction::CopyF(d, _) => Some(d as int),
        AsmInstruction::AddF(d, _, _) => Some(d as int),
        AsmInstruction::AddFI(d, _, _) => Some(d as int),
        AsmInstruction::SubF(d, _, _) => Some(d as int),
        AsmInstruction::SubFI(d, _, _) => Some(d as int),
        AsmInstruction::SubFIN(d, _, _) => Some(d as int),
        AsmInstruction::MulF(d, _, _) => Some(d as int),
        AsmInstruction::MulFI(d, _, _) => Some(d as int),
        AsmInstruction::DivF(d, _, _) => Some(d as int),
        AsmInstruction::DivFI(d, _, _) => Some(d as int),
        AsmInstruction::DivFIN(d, _, _) => Some(d as int),
        _ => None,
    }
}

/// A field instruction of the assembly converts to one instruction of the field-arithmetic
/// chip, which writes to the native cell of the destination exactly the value that the
/// instruction computes on the frame the memory holds (an immediate load reads the native cell
/// at address zero as its second operand, so it needs that cell to hold zero).
pub proof fn lemma_convert_field_op(
    i: AsmInstruction,
    pc: BabyBear,
    labels: Seq<BabyBear>,
    options: CompilerOptions,
    m: MemoryModel,
)
    requires
        field_dest(i) is Some,
        i is ImmF ==> cell(m, 4, 0).val() == 0,
    ensures
        convert_spec(i, pc, labels, options).len() == 1,
        exec_field(frame_of(m), i) is Some,
        vm_field_arith(m, convert_spec(i, pc, labels, options)[0]) == Some(
            (
                4u32,
                modp(field_dest(i)->Some_0),
                exec_field(frame_of(m), i)->Some_0(field_dest(i)->Some_0),
            ),
        ),
{
    let f = frame_of(m);
    let d = field_dest(i)->Some_0;
    crate::field::lemma_modp_basics(d);
    match i {
        AsmInstruction::ImmF(_, c) => {
            crate::field::lemma_modp_small(0);
            assert(c.val() + 0 == c.val());
        },
        AsmInstruction::CopyF(_, a) => {
            crate::field::lemma_modp_basics(a as int);
        },
        AsmInstruction::AddF(_, a, b) => {
            crate::field::lemma_modp_basics(a as int);
            crate::field::lemma_modp_basics(b as int);
        },
        AsmInstruction::AddFI(_, a, _) => {
            crate::field::lemma_modp_basics(a as int);
        },
        AsmInstruction::SubF(_, a, b) => {
            crate::field::lemma_modp_basics(a as int);
            crate::field::lemma_modp_basics(b as int);
        },
        AsmInstruction::SubFI(_, a, _) => {
            crate::field::lemma_modp_basics(a as int);
        },
        AsmInstruction::SubFIN(_, _, b) => {
            crate::field::lemma_modp_basics(b as int);
        },
        AsmInstruction::MulF(_, a, b) => {
            crate::field::lemma_modp_basics(a as int);
            crate::field::lemma_modp_basics(b as int);
        },
        AsmInstruction::MulFI(_, a, _) => {
            crate::field::lemma_modp_basics(a as int);
        },
        AsmInstruction::DivF(_, a, b) => {
            crate::field::lemma_modp_basics(a as int);
            crate::field::lemma_modp_basics(b as int);
        },
        AsmInstruction::DivFI(_, a, _) => {
            crate::field::lemma_modp_basics(a as int);
        },
        AsmInstruction::DivFIN(_, _, b) => {
            crate::field::lemma_modp_basics(b as int);
        },
        _ => {},
    }
}

/// What the branch and jump chips do with an instruction: whether the program counter moves by
/// the instruction's offset, and the offset.  `BEQ`/`BNE` compare `[a]_d` with `[b]_e` (an
/// immediate in address space 0) and move by `c` when they are equal / differ; `JAL` always
/// moves by `b`.
pub open spec fn vm_branch(m: MemoryModel, i: Instruction) -> Option<(bool, int)> {
    let x = modp(vm_operand(m, i.a, i.d));
    let y = modp(vm_operand(m, i.b, i.e));
    if i.opcode.v == 0x110 {
        Some((x == y, i.c.val()))
    } else if i.opcode.v == 0x111 {
        Some((x != y, i.c.val()))
    } else if i.opcode.v == 0x115 {
        Some((true, i.b.val()))
    } else {
        None
    }
}

/// A jump or a base-field branch of the assembly converts to one VM instruction that moves the
/// program counter exactly when the assembly instruction is taken on the frame the memory holds,
/// and then moves it from `pc` to the target label's program counter.
pub proof fn lemma_convert_branch(
    i: AsmInstruction,
    pc: BabyBear,
    labels: Seq<BabyBear>,
    options: CompilerOptions,
    m: MemoryModel,
)
    requires
        i is Jump || i is Bne || i is BneI || i is Beq || i is BeqI,
        pc.v < BABY_BEAR_P,
        branch_effect(i, frame_of(m))->Some_0.1.v < labels.len(),
        lab(labels, branch_effect(i, frame_of(m))->Some_0.1).v < BABY_BEAR_P,
    ensures
        convert_spec(i, pc, labels, options).len() == 1,
        vm_branch(m, convert_spec(i, pc, labels, options)[0]) is Some,
        vm_branch(m, convert_spec(i, pc, labels, options)[0])->Some_0.0 == branch_effect(
            i,
            frame_of(m),
        )->Some_0.0,
        modp(pc.val() + vm_branch(m, convert_spec(i, pc, labels, options)[0])->Some_0.1) == lab(
            labels,
            branch_effect(i, frame_of(m))->Some_0.1,
        ).val(),
{
    let l = branch_effect(i, frame_of(m))->Some_0.1;
    let t = lab(labels, l);
    let off = fsub(t, pc);
    crate::field::lemma_modp_basics(t.val() - pc.val());
    crate::field::lemma_modp_small(t.val());
    crate::field::lemma_modp_small(pc.val());
    crate::field::lemma_eqm_add(pc.val(), pc.val(), off.val(), t.val() - pc.val());
    match i {
        AsmInstruction::Bne(_, a, b) => {
            crate::field::lemma_modp_basics(a as int);
            crate::field::lemma_modp_basics(b as int);
        },
        AsmInstruction::BneI(_, a, _) => {
            crate::field::lemma_modp_basics(a as int);
        },
        AsmInstruction::Beq(_, a, b) => {
            crate::field::lemma_modp_basics(a as int);
            crate::field::lemma_modp_basics(b as int);
        },
        AsmInstruction::BeqI(_, a, _) => {
            crate::field::lemma_modp_basics(a as int);
        },
        _ => {},
    }
}

/// Four consecutive cells of a memory, from a field address.
pub open spec fn vm_cells4(m: MemoryModel, p: BabyBear, space: BabyBear) -> Seq<int> {
    seq![
        cell(m, space.v, p.val()).val(),
        cell(m, space.v, p.val() + 1).val(),
        cell(m, space.v, p.val() + 2).val(),
        cell(m, space.v, p.val() + 3).val(),
    ]
}

/// What the extension-field chip does with an instruction: `[a:4]_d <- [b:4]_d op [c:4]_e`,
/// the operation chosen by the opcode (add, sub, mul, div in the extension); the address space,
/// address and values written, or `None` for another opcode.
pub open spec fn vm_ext_arith(m: MemoryModel, i: Instruction) -> Option<(u32, int, Seq<int>)> {
    let x = vm_cells4(m, i.b, i.d);
    let y = vm_cells4(m, i.c, i.e);
    if i.opcode.v == 0x140 {
        Some((i.d.v, i.a.val(), reduce4(ext_add_int(x, y))))
    } else if i.opcode.v == 0x141 {
        Some((i.d.v, i.a.val(), reduce4(ext_sub_int(x, y))))
    } else if i.opcode.v == 0x142 {
        Some((i.d.v, i.a.val(), reduce4(ext_mul_int(x, y))))
    } else if i.opcode.v == 0x143 {
        Some((i.d.v, i.a.val(), reduce4(ext_mul_int(x, ext_inv(y)))))
    } else {
        None
    }
}

/// Shifting by a small `k` does not wrap around.
proof fn lemma_modp_shift(o: int, k: int)
    requires
        0 <= k,
        modp(o) + k < BABY_BEAR_P,
    ensures
        modp(o + k) == modp(o) + k,
{
    crate::field::lemma_modp_basics(o);
    crate::field::lemma_modp_small(k);
    crate::field::lemma_eqm_add(o, modp(o), k, k);
    crate::field::lemma_modp_small(modp(o) + k);
}

/// Consecutive frame offsets are consecutive native addresses when they do not wrap around.
proof fn lemma_frame_ext_cells(m: MemoryModel, o: int)
    requires
        modp(o) + 3 < BABY_BEAR_P,
    ensures
        frame_ext(frame_of(m), o) == vm_cells4(m, i32f(o), BabyBear { v: 4 }),
{
    crate::field::lemma_modp_basics(o);
    lemma_modp_shift(o, 1);
    lemma_modp_shift(o, 2);
    lemma_modp_shift(o, 3);
    assert(modp(o + 1) == modp(o) + 1);
    assert(modp(o + 2) == modp(o) + 2);
    assert(modp(o + 3) == modp(o) + 3);
    crate::field::lemma_modp_small(modp(o));
    assert(frame_ext(frame_of(m), o) =~= vm_cells4(m, i32f(o), BabyBear { v: 4 }));
}

/// An extension instruction of the assembly converts to one instruction of the extension-field
/// chip, which writes to the four native cells of the destination exactly the values that the
/// instruction computes on the frame the memory holds (its operands not wrapping around the
/// field's addresses).
pub proof fn lemma_convert_ext_op(
    i: AsmInstruction,
    pc: BabyBear,
    labels: Seq<BabyBear>,
    options: CompilerOptions,
    m: MemoryModel,
)
    requires
        i is AddE || i is SubE || i is MulE || i is DivE,
        match i {
            AsmInstruction::AddE(_, a, b) => modp(a as int) + 3 < BABY_BEAR_P && modp(b as int) + 3 < BABY_BEAR_P,
            AsmInstruction::SubE(_, a, b) => modp(a as int) + 3 < BABY_BEAR_P && modp(b as int) + 3 < BABY_BEAR_P,
            AsmInstruction::MulE(_, a, b) => modp(a as int) + 3 < BABY_BEAR_P && modp(b as int) + 3 < BABY_BEAR_P,
            AsmInstruction::DivE(_, a, b) => modp(a as int) + 3 < BABY_BEAR_P && modp(b as int) + 3 < BABY_BEAR_P,
            _ => true,
        },
    ensures
        convert_spec(i, pc, labels, options).len() == 1,
        exec_field(frame_of(m), i) is Some,
        ({
            let d = match i {
                AsmInstruction::AddE(d, _, _) => d as int,
                AsmInstruction::SubE(d, _, _) => d as int,
                AsmInstruction::MulE(d, _, _) => d as int,
                AsmInstruction::DivE(d, _, _) => d as int,
                _ => 0,
            };
            vm_ext_arith(m, convert_spec(i, pc, labels, options)[0]) == Some(
                (4u32, modp(d), frame_ext(exec_field(frame_of(m), i)->Some_0, d)),
            )
        }),
{
    match i {
        AsmInstruction::AddE(d, a, b) => {
            lemma_frame_ext_cells(m, a as int);
            lemma_frame_ext_cells(m, b as int);
            crate::field::lemma_modp_basics(d as int);
        },
        AsmInstruction::SubE(d, a, b) => {
            lemma_frame_ext_cells(m, a as int);
            lemma_frame_ext_cells(m, b as int);
            crate::field::lemma_modp_basics(d as int);
        },
        AsmInstruction::MulE(d, a, b) => {
            lemma_frame_ext_cells(m, a as int);
            lemma_frame_ext_cells(m, b as int);
            crate::field::lemma_modp_basics(d as int);
        },
        AsmInstruction::DivE(d, a, b) => {
            lemma_frame_ext_cells(m, a as int);
            lemma_frame_ext_cells(m, b as int);
            crate::field::lemma_modp_basics(d as int);
        },
        _ => {},
    }
    let g = exec_field(frame_of(m), i)->Some_0;
    match i {
        AsmInstruction::AddE(d, _, _) => {
            assert(frame_ext(g, d as int) =~= reduce4(ext_add_int(frame_ext(frame_of(m), i->AddE_1 as int), frame_ext(frame_of(m), i->AddE_2 as int))));
        },
        AsmInstruction::SubE(d, _, _) => {
            assert(frame_ext(g, d as int) =~= reduce4(ext_sub_int(frame_ext(frame_of(m), i->SubE_1 as int), frame_ext(frame_of(m), i->SubE_2 as int))));
        },
        AsmInstruction::MulE(d, _, _) => {
            assert(frame_ext(g, d as int) =~= reduce4(ext_mul_int(frame_ext(frame_of(m), i->MulE_1 as int), frame_ext(frame_of(m), i->MulE_2 as int))));
        },
        AsmInstruction::DivE(d, _, _) => {
            assert(frame_ext(g, d as int) =~= reduce4(ext_mul_int(frame_ext(frame_of(m), i->DivE_1 as int), ext_inv(frame_ext(frame_of(m), i->DivE_2 as int)))));
        },
        _ => {},
    }
}

/// A single-word load or store of the assembly converts to one `LOADW` / `STOREW` of the
/// load/store chip in the native address space, whose register operand `a` is the native cell of
/// the frame offset, and whose target address (the pointer read from `[c]` plus `b`, as the chip
/// computes it) is the heap address the assembly instruction denotes on the frame the memory
/// holds: the pointer in the frame cell plus `index * size + offset`.
pub proof fn lemma_convert_load_store(
    i: AsmInstruction,
    pc: BabyBear,
    labels: Seq<BabyBear>,
    options: CompilerOptions,
    m: MemoryModel,
)
    requires
        i is LoadFI || i is StoreFI,
    ensures
        convert_spec(i, pc, labels, options).len() == 1,
        ({
            let ins = convert_spec(i, pc, labels, options)[0];
            let (reg, base, index, size, offset) = match i {
                AsmInstruction::LoadFI(d, s, x, z, o) => (d as int, s as int, x, z, o),
                AsmInstruction::StoreFI(v, a, x, z, o) => (v as int, a as int, x, z, o),
                _ => (0, 0, BabyBear { v: 0 }, BabyBear { v: 0 }, BabyBear { v: 0 }),
            };
            &&& ins.opcode.v == (if i is LoadFI { 0x100usize } else { 0x101usize })
            &&& ins.d.v == 4 && ins.e.v == 4
            &&& ins.a.val() == modp(reg)
            &&& crate::loadstore::target_ptr(cell(m, ins.d.v, ins.c.v as int), ins) == modp(
                frame_of(m)(base) + index.val() * size.val() + offset.val(),
            )
        }),
{
    let (base, index, size, offset) = match i {
        AsmInstruction::LoadFI(d, s, x, z, o) => (s as int, x, z, o),
        AsmInstruction::StoreFI(v, a, x, z, o) => (a as int, x, z, o),
        _ => (0, BabyBear { v: 0 }, BabyBear { v: 0 }, BabyBear { v: 0 }),
    };
    let ptr = frame_of(m)(base);
    let is = index.val() * size.val();
    crate::field::lemma_modp_basics(base);
    crate::field::lemma_modp_basics(is);
    crate::field::lemma_modp_basics(modp(is) + offset.val());
    crate::field::lemma_eqm_add(modp(is), is, offset.val(), offset.val());
    crate::field::lemma_eqm_add(ptr, ptr, modp(modp(is) + offset.val()), is + offset.val());
    assert(ptr + (is + offset.val()) == ptr + is + offset.val());
    match i {
        AsmInstruction::LoadFI(d, _, _, _, _) => {
            crate::field::lemma_modp_basics(d as int);
        },
        AsmInstruction::StoreFI(v, _, _, _, _) => {
            crate::field::lemma_modp_basics(v as int);
        },
        _ => {},
    }
}

} // verus!
