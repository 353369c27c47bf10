//! The assembly layer: the stack layout of DSL variables, the assembly instruction set, and the
//! lowering of straight-line DSL instructions to assembly.
use crate::extension::{ext_add_int, ext_inv, ext_mul_int, ext_sub_int, reduce4};
use crate::field::{field_inv, modp, BabyBear, BABY_BEAR_P};
use crate::ir::{Array, DslIr, Ext, ExtConst, Felt, MemIndex, Ptr, RVar, Usize, Var};
use vstd::prelude::*;

verus! {

/// The memory location for the top of memory.
pub const MEMORY_TOP: u32 = 536870908u32;

/// The memory location of the start of the heap.
pub const HEAP_START_ADDRESS: i32 = 16777216i32;

/// The heap pointer address.
pub const HEAP_PTR: i32 = 16777212i32;

/// Utility register.
pub const A0: i32 = 16777208i32;

/// The memory location for the top of the stack.
pub const STACK_TOP: i32 = 16777152i32;

// ---------------------------------------------------------------------------------------------
// Stack layout: vars in positions 1, 2, 9, 10, ...; felts in 3, 4, 11, 12, ...; exts in 5-8,
// 13-16, ... below the top of the stack.
// ---------------------------------------------------------------------------------------------
/// The frame offset of the variable with the given id.
pub open spec fn var_fp_spec(id: u32) -> int {
    STACK_TOP - (8 * (id / 2) + 1 + id % 2)
}

/// The frame offset of the felt with the given id.
pub open spec fn felt_fp_spec(id: u32) -> int {
    STACK_TOP - (8 * (id / 2) + 3 + id % 2)
}

/// The frame offset of the first cell of the extension element with the given id.
pub open spec fn ext_fp_spec(id: u32) -> int {
    STACK_TOP - 8 * id
}

/// The position of a variable is representable.
pub open spec fn var_id_ok(id: u32) -> bool {
    8 * (id / 2) + 2 <= 0x7fff_ffff
}

/// The position of a felt is representable.
pub open spec fn felt_id_ok(id: u32) -> bool {
    8 * (id / 2) + 4 <= 0x7fff_ffff
}

/// The position of an extension element is representable.
pub open spec fn ext_id_ok(id: u32) -> bool {
    8 * id <= 0x7fff_ffff
}

impl Var {
    /// Gets the frame pointer for a var.
    pub fn fp(&self) -> (r: i32)
        requires
            var_id_ok(self.0),
        ensures
            r == var_fp_spec(self.0),
    {
        STACK_TOP - (8 * (self.0 / 2) + 1 + (self.0 % 2)) as i32
    }
}

impl Felt {
    /// Gets the frame pointer for a felt.
    pub fn fp(&self) -> (r: i32)
        requires
            felt_id_ok(self.0),
        ensures
            r == felt_fp_spec(self.0),
    {
        let x: u32 = self.0;
        proof {
            assert(((x >> 1u32) << 3u32) == 8 * (x / 2) && (x & 1u32) == x % 2) by (bit_vector)
                requires
                    x <= 0x3fff_ffff,
            ;
        }
        STACK_TOP - (((x >> 1u32) << 3u32) + 3 + (x & 1u32)) as i32
    }
}

impl Ext {
    /// Gets the frame pointer for an extension element.
    pub fn fp(&self) -> (r: i32)
        requires
            ext_id_ok(self.0),
        ensures
            r == ext_fp_spec(self.0),
    {
        STACK_TOP - 8 * self.0 as i32
    }
}

impl Ptr {
    /// Gets the frame pointer for a pointer.
    pub fn fp(&self) -> (r: i32)
        requires
            var_id_ok(self.address.0),
        ensures
            r == var_fp_spec(self.address.0),
    {
        self.address.fp()
    }
}

/// Distinct DSL variables never share a stack cell: vars, felts and the four cells of each
/// extension element occupy pairwise different positions, none of which is a utility register.
pub proof fn lemma_frame_slots_disjoint(
    v: u32,
    w: u32,
    f: u32,
    g: u32,
    e: u32,
    h: u32,
    i: int,
    j: int,
)
    requires
        var_id_ok(v),
        var_id_ok(w),
        felt_id_ok(f),
        felt_id_ok(g),
        ext_id_ok(e),
        ext_id_ok(h),
        0 <= i < 4,
        0 <= j < 4,
    ensures
        var_fp_spec(v) == var_fp_spec(w) ==> v == w,
        felt_fp_spec(f) == felt_fp_spec(g) ==> f == g,
        ext_fp_spec(e) + i == ext_fp_spec(h) + j ==> e == h && i == j,
        var_fp_spec(v) != felt_fp_spec(f),
        var_fp_spec(v) != ext_fp_spec(e) + i,
        felt_fp_spec(f) != ext_fp_spec(e) + i,
        var_fp_spec(v) != A0 && var_fp_spec(v) != HEAP_PTR,
        felt_fp_spec(f) != A0 && felt_fp_spec(f) != HEAP_PTR,
        ext_fp_spec(e) + i != A0 && ext_fp_spec(e) + i != HEAP_PTR,
{
}

/// Represents a memory index triple.
#[derive(Clone, Copy, Debug, PartialEq, Eq, Structural)]
pub enum IndexTriple {
    Var(i32, BabyBear, BabyBear),
    Const(BabyBear, BabyBear, BabyBear),
}

/// A value or a constant.
#[derive(Clone, Copy, Debug, PartialEq, Eq)]
pub enum ValueOrConst {
    Val(i32),
    ExtVal(i32),
    Const(BabyBear),
    ExtConst(ExtConst),
}

/// A memory index is lowerable: its variable has a position and offset and size are canonical.
pub open spec fn mem_index_ok(index: MemIndex) -> bool {
    &&& index.offset < BABY_BEAR_P
    &&& index.size < BABY_BEAR_P
    &&& (index.index matches RVar::Val(v) ==> var_id_ok(v.0))
}

pub open spec fn mem_index_fp_spec(index: MemIndex) -> IndexTriple {
    match index.index {
        RVar::Const(c) => IndexTriple::Const(
            c,
            BabyBear { v: index.offset as u32 },
            BabyBear { v: index.size as u32 },
        ),
        RVar::Val(v) => IndexTriple::Var(
            var_fp_spec(v.0) as i32,
            BabyBear { v: index.offset as u32 },
            BabyBear { v: index.size as u32 },
        ),
    }
}

impl MemIndex {
    /// The index triple `(index, offset, size)` with the index as a frame position or constant.
    pub fn fp(&self) -> (r: IndexTriple)
        requires
            mem_index_ok(*self),
        ensures
            r == mem_index_fp_spec(*self),
    {
        match &self.index {
            RVar::Const(index) => IndexTriple::Const(
                *index,
                BabyBear::from_canonical_usize(self.offset),
                BabyBear::from_canonical_usize(self.size),
            ),
            RVar::Val(index) => IndexTriple::Var(
                index.fp(),
                BabyBear::from_canonical_usize(self.offset),
                BabyBear::from_canonical_usize(self.size),
            ),
        }
    }
}

/// The assembly instruction set.  Positions are frame offsets (`i32`), labels are block
/// indices stored as field elements.
#[derive(Clone, Copy, Debug, PartialEq, Eq)]
pub enum AsmInstruction {
    /// Load word (dst, src, var_index, size, offset).
    LoadFI(i32, i32, BabyBear, BabyBear, BabyBear),
    /// Load a block of four words (dst, src, var_index, size, offset).
    LoadEI(i32, i32, BabyBear, BabyBear, BabyBear),
    /// Store word (val, addr, var_index, size, offset).
    StoreFI(i32, i32, BabyBear, BabyBear, BabyBear),
    /// Store a block of four words (val, addr, var_index, size, offset).
    StoreEI(i32, i32, BabyBear, BabyBear, BabyBear),
    /// Set dst = imm.
    ImmF(i32, BabyBear),
    /// Copy, dst = src.
    CopyF(i32, i32),
    AddF(i32, i32, i32),
    AddFI(i32, i32, BabyBear),
    SubF(i32, i32, i32),
    SubFI(i32, i32, BabyBear),
    /// Subtract value from immediate, dst = lhs - rhs.
    SubFIN(i32, BabyBear, i32),
    MulF(i32, i32, i32),
    MulFI(i32, i32, BabyBear),
    DivF(i32, i32, i32),
    DivFI(i32, i32, BabyBear),
    DivFIN(i32, BabyBear, i32),
    AddE(i32, i32, i32),
    SubE(i32, i32, i32),
    MulE(i32, i32, i32),
    DivE(i32, i32, i32),
    /// Jump (dst, label).
    Jump(i32, BabyBear),
    Bne(BabyBear, i32, i32),
    BneI(BabyBear, i32, BabyBear),
    Beq(BabyBear, i32, i32),
    BeqI(BabyBear, i32, BabyBear),
    BneE(BabyBear, i32, i32),
    BneEI(BabyBear, i32, ExtConst),
    BeqE(BabyBear, i32, i32),
    BeqEI(BabyBear, i32, ExtConst),
    Trap,
    Halt,
    /// Break(label): a jump to the end of the loop with this label, resolved when the loop ends.
    Break(BabyBear),
    Poseidon2Permute(i32, i32),
    Poseidon2Compress(i32, i32, i32),
    /// (a, b, length, alpha, res, hint_id, is_init)
    FriReducedOpening(i32, i32, i32, i32, i32, i32, i32),
    /// (dim, opened, opened_length, sibling, index, commit)
    VerifyBatchFelt(i32, i32, i32, i32, i32, i32),
    VerifyBatchExt(i32, i32, i32, i32, i32, i32),
    /// (value, lower bits, upper bits)
    RangeCheck(i32, i32, i32),
    PrintV(i32),
    PrintF(i32),
    PrintE(i32),
    HintInputVec,
    HintFelt,
    /// HintBits(src, len).
    HintBits(i32, u32),
    HintLoad,
    /// Stores the next hint word at the address stored at `addr` plus the offset.
    StoreHintWordI(i32, BabyBear),
    StoreHintExtI(i32, BabyBear),
    /// Publish(val, index).
    Publish(i32, i32),
    CycleTrackerStart,
    CycleTrackerEnd,
}

/// `Jump(A0, label)`.
pub open spec fn jump_spec(label: BabyBear) -> AsmInstruction {
    AsmInstruction::Jump(A0, label)
}

impl AsmInstruction {
    /// An unconditional jump, linking into the utility register.
    pub fn j(label: BabyBear) -> (r: AsmInstruction)
        ensures
            r == jump_spec(label),
    {
        AsmInstruction::Jump(A0, label)
    }
}

// ---------------------------------------------------------------------------------------------
// Lowering of straight-line DSL instructions.
// ---------------------------------------------------------------------------------------------
pub open spec fn vfp(v: Var) -> i32 {
    var_fp_spec(v.0) as i32
}

pub open spec fn ffp(f: Felt) -> i32 {
    felt_fp_spec(f.0) as i32
}

pub open spec fn efp(e: Ext, i: int) -> i32 {
    (ext_fp_spec(e.0) + i) as i32
}

pub open spec fn pfp(p: Ptr) -> i32 {
    var_fp_spec(p.address.0) as i32
}

pub open spec fn bb(n: int) -> BabyBear {
    BabyBear { v: n as u32 }
}

/// `-x` in the field.
pub open spec fn neg_spec(x: BabyBear) -> BabyBear {
    BabyBear { v: modp(-x.val()) as u32 }
}

/// `x * y` in the field.
pub open spec fn mul_spec(x: BabyBear, y: BabyBear) -> BabyBear {
    BabyBear { v: modp(x.val() * y.val()) as u32 }
}

/// `x + y` in the field.
pub open spec fn add_spec(x: BabyBear, y: BabyBear) -> BabyBear {
    BabyBear { v: modp(x.val() + y.val()) as u32 }
}

/// Four immediates written to consecutive cells starting at `dst`.
pub open spec fn assign_exti_spec(dst: int, imm: ExtConst) -> Seq<AsmInstruction> {
    seq![
        AsmInstruction::ImmF(dst as i32, imm[0]),
        AsmInstruction::ImmF((dst + 1) as i32, imm[1]),
        AsmInstruction::ImmF((dst + 2) as i32, imm[2]),
        AsmInstruction::ImmF((dst + 3) as i32, imm[3]),
    ]
}

pub open spec fn add_ext_exti_spec(dst: Ext, lhs: Ext, rhs: ExtConst) -> Seq<AsmInstruction> {
    seq![
        AsmInstruction::AddFI(efp(dst, 0), efp(lhs, 0), rhs[0]),
        AsmInstruction::AddFI(efp(dst, 1), efp(lhs, 1), rhs[1]),
        AsmInstruction::AddFI(efp(dst, 2), efp(lhs, 2), rhs[2]),
        AsmInstruction::AddFI(efp(dst, 3), efp(lhs, 3), rhs[3]),
    ]
}

pub open spec fn sub_exti_ext_spec(dst: Ext, lhs: ExtConst, rhs: Ext) -> Seq<AsmInstruction> {
    seq![
        AsmInstruction::SubFIN(efp(dst, 0), lhs[0], efp(rhs, 0)),
        AsmInstruction::SubFIN(efp(dst, 1), lhs[1], efp(rhs, 1)),
        AsmInstruction::SubFIN(efp(dst, 2), lhs[2], efp(rhs, 2)),
        AsmInstruction::SubFIN(efp(dst, 3), lhs[3], efp(rhs, 3)),
    ]
}

pub open spec fn add_ext_felt_spec(dst: Ext, lhs: Ext, rhs: Felt) -> Seq<AsmInstruction> {
    seq![
        AsmInstruction::AddF(efp(dst, 0), efp(lhs, 0), ffp(rhs)),
        AsmInstruction::CopyF(efp(dst, 1), efp(lhs, 1)),
        AsmInstruction::CopyF(efp(dst, 2), efp(lhs, 2)),
        AsmInstruction::CopyF(efp(dst, 3), efp(lhs, 3)),
    ]
}

pub open spec fn sub_ext_felt_spec(dst: Ext, lhs: Ext, rhs: Felt) -> Seq<AsmInstruction> {
    seq![
        AsmInstruction::SubF(efp(dst, 0), efp(lhs, 0), ffp(rhs)),
        AsmInstruction::CopyF(efp(dst, 1), efp(lhs, 1)),
        AsmInstruction::CopyF(efp(dst, 2), efp(lhs, 2)),
        AsmInstruction::CopyF(efp(dst, 3), efp(lhs, 3)),
    ]
}

/// `dst = lhs + rhs` for a felt `lhs` and an extension constant `rhs`: the felt is added to
/// the first coordinate, the other coordinates are the constant's.
pub open spec fn add_felt_exti_spec(dst: Ext, lhs: Felt, rhs: ExtConst) -> Seq<AsmInstruction> {
    seq![
        AsmInstruction::AddFI(efp(dst, 0), ffp(lhs), rhs[0]),
        AsmInstruction::ImmF(efp(dst, 1), rhs[1]),
        AsmInstruction::ImmF(efp(dst, 2), rhs[2]),
        AsmInstruction::ImmF(efp(dst, 3), rhs[3]),
    ]
}

pub open spec fn mul_ext_felt_spec(dst: Ext, lhs: Ext, rhs: Felt) -> Seq<AsmInstruction> {
    seq![
        AsmInstruction::MulF(efp(dst, 0), efp(lhs, 0), ffp(rhs)),
        AsmInstruction::MulF(efp(dst, 1), efp(lhs, 1), ffp(rhs)),
        AsmInstruction::MulF(efp(dst, 2), efp(lhs, 2), ffp(rhs)),
        AsmInstruction::MulF(efp(dst, 3), efp(lhs, 3), ffp(rhs)),
    ]
}

pub open spec fn mul_ext_felti_spec(dst: Ext, lhs: Ext, rhs: BabyBear) -> Seq<AsmInstruction> {
    seq![
        AsmInstruction::MulFI(efp(dst, 0), efp(lhs, 0), rhs),
        AsmInstruction::MulFI(efp(dst, 1), efp(lhs, 1), rhs),
        AsmInstruction::MulFI(efp(dst, 2), efp(lhs, 2), rhs),
        AsmInstruction::MulFI(efp(dst, 3), efp(lhs, 3), rhs),
    ]
}

pub open spec fn div_ext_felt_spec(dst: Ext, lhs: Ext, rhs: Felt) -> Seq<AsmInstruction> {
    seq![
        AsmInstruction::DivF(efp(dst, 0), efp(lhs, 0), ffp(rhs)),
        AsmInstruction::DivF(efp(dst, 1), efp(lhs, 1), ffp(rhs)),
        AsmInstruction::DivF(efp(dst, 2), efp(lhs, 2), ffp(rhs)),
        AsmInstruction::DivF(efp(dst, 3), efp(lhs, 3), ffp(rhs)),
    ]
}

/// The four single-word loads of an extension element from `addr` with the given offset.
pub open spec fn load_ext_spec(val: Ext, addr: i32, offset: BabyBear) -> Seq<AsmInstruction> {
    seq![
        AsmInstruction::LoadFI(efp(val, 0), addr, bb(0), bb(1), offset),
        AsmInstruction::LoadFI(efp(val, 1), addr, bb(1), bb(1), offset),
        AsmInstruction::LoadFI(efp(val, 2), addr, bb(2), bb(1), offset),
        AsmInstruction::LoadFI(efp(val, 3), addr, bb(3), bb(1), offset),
    ]
}

pub open spec fn store_ext_spec(val: Ext, addr: i32, offset: BabyBear) -> Seq<AsmInstruction> {
    seq![
        AsmInstruction::StoreFI(efp(val, 0), addr, bb(0), bb(1), offset),
        AsmInstruction::StoreFI(efp(val, 1), addr, bb(1), bb(1), offset),
        AsmInstruction::StoreFI(efp(val, 2), addr, bb(2), bb(1), offset),
        AsmInstruction::StoreFI(efp(val, 3), addr, bb(3), bb(1), offset),
    ]
}

/// `mem[dst] <- mem[src] + c * mem[val]`.
pub open spec fn add_scaled_spec(dst: i32, src: i32, val: i32, c: BabyBear) -> Seq<
    AsmInstruction,
> {
    if c.v == 1 {
        seq![AsmInstruction::AddF(dst, src, val)]
    } else {
        seq![AsmInstruction::MulFI(dst, val, c), AsmInstruction::AddF(dst, dst, src)]
    }
}

/// Rounds `x` up to a multiple of `w`.
pub open spec fn align_spec(x: int, w: int) -> int {
    ((x + w - 1) / w) * w
}

pub open spec fn alloc_spec(ptr: Ptr, len: RVar, size: usize, word_size: usize) -> Seq<
    AsmInstruction,
> {
    match len {
        RVar::Const(l) => seq![
            AsmInstruction::CopyF(pfp(ptr), HEAP_PTR),
            AsmInstruction::AddFI(HEAP_PTR, HEAP_PTR, bb(align_spec(l.v * size, word_size as int))),
        ],
        RVar::Val(l) => seq![
            AsmInstruction::CopyF(pfp(ptr), HEAP_PTR),
            AsmInstruction::MulFI(A0, vfp(l), bb(align_spec(size as int, word_size as int))),
            AsmInstruction::AddF(HEAP_PTR, HEAP_PTR, A0),
        ],
    }
}

/// Single-word load or store through a memory index.
pub open spec fn mem_word_spec(is_load: bool, reg: i32, ptr: Ptr, index: MemIndex) -> Seq<
    AsmInstruction,
> {
    match mem_index_fp_spec(index) {
        IndexTriple::Const(i, o, s) => if is_load {
            seq![AsmInstruction::LoadFI(reg, pfp(ptr), i, s, o)]
        } else {
            seq![AsmInstruction::StoreFI(reg, pfp(ptr), i, s, o)]
        },
        IndexTriple::Var(i, o, s) => add_scaled_spec(A0, pfp(ptr), i, s) + if is_load {
            seq![AsmInstruction::LoadFI(reg, A0, bb(0), bb(0), o)]
        } else {
            seq![AsmInstruction::StoreFI(reg, A0, bb(0), bb(0), o)]
        },
    }
}

/// Extension load or store through a memory index.
pub open spec fn mem_ext_spec(is_load: bool, val: Ext, ptr: Ptr, index: MemIndex) -> Seq<
    AsmInstruction,
> {
    match mem_index_fp_spec(index) {
        IndexTriple::Const(i, o, s) => if is_load {
            load_ext_spec(val, pfp(ptr), add_spec(mul_spec(i, s), o))
        } else {
            store_ext_spec(val, pfp(ptr), add_spec(mul_spec(i, s), o))
        },
        IndexTriple::Var(i, o, s) => add_scaled_spec(A0, pfp(ptr), i, s) + if is_load {
            load_ext_spec(val, A0, o)
        } else {
            store_ext_spec(val, A0, o)
        },
    }
}

pub open spec fn store_hint_word_spec(ptr: Ptr, index: MemIndex) -> Seq<AsmInstruction> {
    match mem_index_fp_spec(index) {
        IndexTriple::Const(i, o, s) => seq![
            AsmInstruction::StoreHintWordI(pfp(ptr), add_spec(mul_spec(s, i), o)),
        ],
        IndexTriple::Var(i, o, s) => add_scaled_spec(A0, pfp(ptr), i, s) + seq![
            AsmInstruction::StoreHintWordI(A0, o),
        ],
    }
}

pub open spec fn neg_ext_spec(x: ExtConst) -> ExtConst {
    [neg_spec(x[0]), neg_spec(x[1]), neg_spec(x[2]), neg_spec(x[3])]
}

pub open spec fn from_base_spec(x: BabyBear) -> ExtConst {
    [x, bb(0), bb(0), bb(0)]
}

/// The trap label: block 1 holds the `Trap` used by all failed assertions.
pub open spec fn trap() -> BabyBear {
    bb(1)
}

/// Whether a DSL instruction is lowered without control flow.
pub open spec fn is_straight_line(op: DslIr) -> bool {
    !(op is For || op is Loop || op is Break || op is IfEq || op is IfNe || op is IfEqI
        || op is IfNeI)
}

/// The assembly for a straight-line DSL instruction.
pub open spec fn lower_spec(op: DslIr, word_size: usize) -> Seq<AsmInstruction> {
    match op {
        DslIr::ImmV(d, s) => seq![AsmInstruction::ImmF(vfp(d), s)],
        DslIr::ImmF(d, s) => seq![AsmInstruction::ImmF(ffp(d), s)],
        DslIr::ImmE(d, s) => assign_exti_spec(ext_fp_spec(d.0), s),
        DslIr::AddV(d, l, r) => seq![AsmInstruction::AddF(vfp(d), vfp(l), vfp(r))],
        DslIr::AddVI(d, l, r) => seq![AsmInstruction::AddFI(vfp(d), vfp(l), r)],
        DslIr::AddF(d, l, r) => seq![AsmInstruction::AddF(ffp(d), ffp(l), ffp(r))],
        DslIr::AddFI(d, l, r) => seq![AsmInstruction::AddFI(ffp(d), ffp(l), r)],
        DslIr::AddE(d, l, r) => seq![AsmInstruction::AddE(efp(d, 0), efp(l, 0), efp(r, 0))],
        DslIr::AddEI(d, l, r) => add_ext_exti_spec(d, l, r),
        DslIr::AddEF(d, l, r) => add_ext_felt_spec(d, l, r),
        DslIr::AddEFFI(d, l, r) => add_felt_exti_spec(d, l, r),
        DslIr::AddEFI(d, l, r) => add_ext_exti_spec(d, l, from_base_spec(r)),
        DslIr::SubV(d, l, r) => seq![AsmInstruction::SubF(vfp(d), vfp(l), vfp(r))],
        DslIr::SubVI(d, l, r) => seq![AsmInstruction::SubFI(vfp(d), vfp(l), r)],
        DslIr::SubVIN(d, l, r) => seq![AsmInstruction::SubFIN(vfp(d), l, vfp(r))],
        DslIr::SubF(d, l, r) => seq![AsmInstruction::SubF(ffp(d), ffp(l), ffp(r))],
        DslIr::SubFI(d, l, r) => seq![AsmInstruction::SubFI(ffp(d), ffp(l), r)],
        DslIr::SubFIN(d, l, r) => seq![AsmInstruction::SubFIN(ffp(d), l, ffp(r))],
        DslIr::NegV(d, s) => seq![AsmInstruction::MulFI(vfp(d), vfp(s), bb(-1 + 2013265921))],
        DslIr::NegF(d, s) => seq![AsmInstruction::MulFI(ffp(d), ffp(s), bb(-1 + 2013265921))],
        DslIr::DivF(d, l, r) => seq![AsmInstruction::DivF(ffp(d), ffp(l), ffp(r))],
        DslIr::DivFI(d, l, r) => seq![AsmInstruction::DivFI(ffp(d), ffp(l), r)],
        DslIr::DivFIN(d, l, r) => seq![AsmInstruction::DivFIN(ffp(d), l, ffp(r))],
        DslIr::DivEIN(d, l, r) => assign_exti_spec(A0 as int, l) + seq![
            AsmInstruction::DivE(efp(d, 0), A0, efp(r, 0)),
        ],
        DslIr::DivE(d, l, r) => seq![AsmInstruction::DivE(efp(d, 0), efp(l, 0), efp(r, 0))],
        DslIr::DivEI(d, l, r) => assign_exti_spec(A0 as int, r) + seq![
            AsmInstruction::DivE(efp(d, 0), efp(l, 0), A0),
        ],
        DslIr::DivEF(d, l, r) => div_ext_felt_spec(d, l, r),
        DslIr::DivEFI(d, l, r) => mul_ext_felti_spec(d, l, bb(field_inv(r.val()))),
        DslIr::SubEF(d, l, r) => sub_ext_felt_spec(d, l, r),
        DslIr::SubEFI(d, l, r) => add_ext_exti_spec(d, l, from_base_spec(neg_spec(r))),
        DslIr::SubEIN(d, l, r) => sub_exti_ext_spec(d, l, r),
        DslIr::SubE(d, l, r) => seq![AsmInstruction::SubE(efp(d, 0), efp(l, 0), efp(r, 0))],
        DslIr::SubEI(d, l, r) => add_ext_exti_spec(d, l, neg_ext_spec(r)),
        DslIr::NegE(d, s) => mul_ext_felti_spec(d, s, bb(-1 + 2013265921)),
        DslIr::MulV(d, l, r) => seq![AsmInstruction::MulF(vfp(d), vfp(l), vfp(r))],
        DslIr::MulVI(d, l, r) => seq![AsmInstruction::MulFI(vfp(d), vfp(l), r)],
        DslIr::MulF(d, l, r) => seq![AsmInstruction::MulF(ffp(d), ffp(l), ffp(r))],
        DslIr::MulFI(d, l, r) => seq![AsmInstruction::MulFI(ffp(d), ffp(l), r)],
        DslIr::MulE(d, l, r) => seq![AsmInstruction::MulE(efp(d, 0), efp(l, 0), efp(r, 0))],
        DslIr::MulEI(d, l, r) => assign_exti_spec(A0 as int, r) + seq![
            AsmInstruction::MulE(efp(d, 0), efp(l, 0), A0),
        ],
        DslIr::MulEF(d, l, r) => mul_ext_felt_spec(d, l, r),
        DslIr::MulEFI(d, l, r) => mul_ext_felti_spec(d, l, r),
        DslIr::CastFV(d, s) => seq![AsmInstruction::AddFI(vfp(d), ffp(s), bb(0))],
        DslIr::UnsafeCastVF(d, s) => seq![AsmInstruction::AddFI(ffp(d), vfp(s), bb(0))],
        DslIr::AssertEqV(l, r) => seq![AsmInstruction::Bne(trap(), vfp(l), vfp(r))],
        DslIr::AssertEqVI(l, r) => seq![AsmInstruction::BneI(trap(), vfp(l), r)],
        DslIr::AssertNeV(l, r) => seq![AsmInstruction::Beq(trap(), vfp(l), vfp(r))],
        DslIr::AssertNeVI(l, r) => seq![AsmInstruction::BeqI(trap(), vfp(l), r)],
        DslIr::AssertEqF(l, r) => seq![AsmInstruction::Bne(trap(), ffp(l), ffp(r))],
        DslIr::AssertEqFI(l, r) => seq![AsmInstruction::BneI(trap(), ffp(l), r)],
        DslIr::AssertNeF(l, r) => seq![AsmInstruction::Beq(trap(), ffp(l), ffp(r))],
        DslIr::AssertNeFI(l, r) => seq![AsmInstruction::BeqI(trap(), ffp(l), r)],
        DslIr::AssertEqE(l, r) => seq![AsmInstruction::BneE(trap(), efp(l, 0), efp(r, 0))],
        DslIr::AssertEqEI(l, r) => seq![AsmInstruction::BneEI(trap(), efp(l, 0), r)],
        DslIr::AssertNeE(l, r) => seq![AsmInstruction::BeqE(trap(), efp(l, 0), efp(r, 0))],
        DslIr::AssertNeEI(l, r) => seq![AsmInstruction::BeqEI(trap(), efp(l, 0), r)],
        DslIr::Alloc(p, l, s) => alloc_spec(p, l, s, word_size),
        DslIr::LoadV(v, p, i) => mem_word_spec(true, vfp(v), p, i),
        DslIr::LoadF(v, p, i) => mem_word_spec(true, ffp(v), p, i),
        DslIr::LoadE(v, p, i) => mem_ext_spec(true, v, p, i),
        DslIr::LoadHeapPtr(p) => seq![AsmInstruction::AddFI(pfp(p), HEAP_PTR, bb(0))],
        DslIr::StoreV(v, p, i) => mem_word_spec(false, vfp(v), p, i),
        DslIr::StoreF(v, p, i) => mem_word_spec(false, ffp(v), p, i),
        DslIr::StoreE(v, p, i) => mem_ext_spec(false, v, p, i),
        DslIr::StoreHeapPtr(p) => seq![AsmInstruction::AddFI(HEAP_PTR, pfp(p), bb(0))],
        DslIr::HintBitsF(v, l) => seq![AsmInstruction::HintBits(ffp(v), l)],
        DslIr::HintBitsV(v, l) => seq![AsmInstruction::HintBits(vfp(v), l)],
        DslIr::Poseidon2PermuteBabyBear(d, s) => seq![
            AsmInstruction::Poseidon2Permute(pfp(d->Dyn_0), pfp(s->Dyn_0)),
        ],
        DslIr::Poseidon2CompressBabyBear(r, l, rr) => seq![
            AsmInstruction::Poseidon2Compress(pfp(r->Dyn_0), pfp(l->Dyn_0), pfp(rr->Dyn_0)),
        ],
        DslIr::Error => seq![jump_spec(trap())],
        DslIr::PrintF(v) => seq![AsmInstruction::PrintF(ffp(v))],
        DslIr::PrintV(v) => seq![AsmInstruction::PrintV(vfp(v))],
        DslIr::PrintE(v) => seq![AsmInstruction::PrintE(efp(v, 0))],
        DslIr::HintInputVec => seq![AsmInstruction::HintInputVec],
        DslIr::StoreHintWord(p, i) => store_hint_word_spec(p, i),
        DslIr::Publish(v, i) => seq![AsmInstruction::Publish(ffp(v), vfp(i))],
        DslIr::CycleTrackerStart(_) => seq![AsmInstruction::CycleTrackerStart],
        DslIr::CycleTrackerEnd(_) => seq![AsmInstruction::CycleTrackerEnd],
        DslIr::Halt => seq![AsmInstruction::Halt],
        DslIr::FriReducedOpening(alpha, hint_id, is_init, at_x, at_z, result) => seq![
            AsmInstruction::FriReducedOpening(
                pfp(at_x->Dyn_0),
                pfp(at_z->Dyn_0),
                vfp(at_z->Dyn_1->Var_0),
                efp(alpha, 0),
                efp(result, 0),
                vfp(hint_id),
                vfp(is_init),
            ),
        ],
        _ => Seq::empty(),
    }
}

/// The frame with cell `k` set to `v`.
pub open spec fn frame_set(f: spec_fn(int) -> int, k: int, v: int) -> spec_fn(int) -> int {
    |j: int| if j == k { v } else { f(j) }
}

/// The four cells from `p` of a frame: an extension element.
pub open spec fn frame_ext(f: spec_fn(int) -> int, p: int) -> Seq<int> {
    seq![f(p), f(p + 1), f(p + 2), f(p + 3)]
}

/// The frame with the four cells from `p` set to `vals`.
pub open spec fn frame_set4(f: spec_fn(int) -> int, p: int, vals: Seq<int>) -> spec_fn(int) -> int {
    |j: int| if p <= j < p + 4 { vals[j - p] } else { f(j) }
}

/// What a straight-line field or extension instruction does to the frame, each cell holding a
/// field value, an extension element four consecutive cells;
/// `None` for the instructions outside this fragment (branches, memory, hints, ...).
pub open spec fn exec_field(f: spec_fn(int) -> int, ins: AsmInstruction) -> Option<spec_fn(int) -> int> {
    match ins {
        AsmInstruction::ImmF(d, c) => Some(frame_set(f, d as int, modp(c.val()))),
        AsmInstruction::CopyF(d, a) => Some(frame_set(f, d as int, modp(f(a as int)))),
        AsmInstruction::AddF(d, a, b) => Some(frame_set(f, d as int, modp(f(a as int) + f(b as int)))),
        AsmInstruction::AddFI(d, a, c) => Some(frame_set(f, d as int, modp(f(a as int) + c.val()))),
        AsmInstruction::SubF(d, a, b) => Some(frame_set(f, d as int, modp(f(a as int) - f(b as int)))),
        AsmInstruction::SubFI(d, a, c) => Some(frame_set(f, d as int, modp(f(a as int) - c.val()))),
        AsmInstruction::MulF(d, a, b) => Some(frame_set(f, d as int, modp(f(a as int) * f(b as int)))),
        AsmInstruction::MulFI(d, a, c) => Some(frame_set(f, d as int, modp(f(a as int) * c.val()))),
        AsmInstruction::SubFIN(d, c, b) => Some(frame_set(f, d as int, modp(c.val() - f(b as int)))),
        AsmInstruction::DivF(d, a, b) => Some(
            frame_set(f, d as int, modp(f(a as int) * field_inv(modp(f(b as int))))),
        ),
        AsmInstruction::DivFI(d, a, c) => Some(
            frame_set(f, d as int, modp(f(a as int) * field_inv(modp(c.val())))),
        ),
        AsmInstruction::DivFIN(d, c, b) => Some(
            frame_set(f, d as int, modp(c.val() * field_inv(modp(f(b as int))))),
        ),
        AsmInstruction::LoadFI(d, a, i, z, o) => Some(
            frame_set(f, d as int, modp(f(modp(f(a as int) + i.val() * z.val() + o.val())))),
        ),
        AsmInstruction::StoreFI(v, a, i, z, o) => Some(
            frame_set(f, modp(f(a as int) + i.val() * z.val() + o.val()), modp(f(v as int))),
        ),
        AsmInstruction::AddE(d, a, b) => Some(
            frame_set4(f, d as int, reduce4(ext_add_int(frame_ext(f, a as int), frame_ext(f, b as int)))),
        ),
        AsmInstruction::SubE(d, a, b) => Some(
            frame_set4(f, d as int, reduce4(ext_sub_int(frame_ext(f, a as int), frame_ext(f, b as int)))),
        ),
        AsmInstruction::MulE(d, a, b) => Some(
            frame_set4(f, d as int, reduce4(ext_mul_int(frame_ext(f, a as int), frame_ext(f, b as int)))),
        ),
        AsmInstruction::DivE(d, a, b) => Some(
            frame_set4(
                f,
                d as int,
                reduce4(ext_mul_int(frame_ext(f, a as int), ext_inv(frame_ext(f, b as int)))),
            ),
        ),
        _ => None,
    }
}

/// Runs a straight-line sequence of field instructions on the frame.
pub open spec fn exec_fields(f: spec_fn(int) -> int, s: Seq<AsmInstruction>) -> Option<spec_fn(int) -> int>
    decreases s.len(),
{
    if s.len() == 0 {
        Some(f)
    } else {
        match exec_field(f, s[0]) {
            Some(g) => exec_fields(g, s.drop_first()),
            None => None,
        }
    }
}

/// What a jump or a conditional branch does on a frame: whether it is taken, and its target
/// label; `None` for the other instructions.
pub open spec fn branch_effect(i: AsmInstruction, f: spec_fn(int) -> int) -> Option<(bool, BabyBear)> {
    match i {
        AsmInstruction::Jump(_, l) => Some((true, l)),
        AsmInstruction::Bne(l, a, b) => Some((modp(f(a as int)) != modp(f(b as int)), l)),
        AsmInstruction::BneI(l, a, c) => Some((modp(f(a as int)) != modp(c.val()), l)),
        AsmInstruction::Beq(l, a, b) => Some((modp(f(a as int)) == modp(f(b as int)), l)),
        AsmInstruction::BeqI(l, a, c) => Some((modp(f(a as int)) == modp(c.val()), l)),
        _ => None,
    }
}

/// A sequence of one field instruction runs as that instruction.
pub proof fn lemma_exec_fields_single(f: spec_fn(int) -> int, i: AsmInstruction)
    ensures
        exec_fields(f, seq![i]) == exec_field(f, i),
{
    let s = seq![i];
    assert(s.drop_first() =~= Seq::<AsmInstruction>::empty());
    match exec_field(f, i) {
        Some(g) => {
            assert(exec_fields(g, s.drop_first()) == Some(g));
        },
        None => {},
    }
}

} // verus!
