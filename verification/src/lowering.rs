//! Executable lowering of straight-line DSL instructions to assembly, proved equal to
//! `lower_spec`.
use crate::assembly::{
    add_ext_exti_spec, add_ext_felt_spec, add_felt_exti_spec, add_scaled_spec, align_spec,
    alloc_spec, assign_exti_spec, div_ext_felt_spec, efp, ext_id_ok, felt_id_ok, from_base_spec,
    load_ext_spec, lower_spec, mem_ext_spec, mem_index_ok, mem_word_spec, mul_ext_felt_spec,
    mul_ext_felti_spec, neg_ext_spec, store_ext_spec, store_hint_word_spec, sub_ext_felt_spec,
    sub_exti_ext_spec, var_id_ok, AsmInstruction, IndexTriple, A0, HEAP_PTR,
    bb, branch_effect, exec_field, exec_fields, frame_set, pfp, vfp, ffp, lemma_exec_fields_single, trap,
    STACK_TOP, ext_fp_spec, felt_fp_spec, lemma_frame_slots_disjoint, frame_ext,
};
use crate::extension::{ext_add_int, ext_inv, ext_mul_int, ext_sub_int, reduce4};
use crate::field::{field_inv, modp, BabyBear, BABY_BEAR_P};
use crate::ir::{Array, DslIr, Ext, ExtConst, Felt, MemIndex, Ptr, RVar, Usize, Var};
use vstd::prelude::*;

verus! {

pub open spec fn vok(v: Var) -> bool {
    var_id_ok(v.0)
}

pub open spec fn fok(f: Felt) -> bool {
    felt_id_ok(f.0)
}

pub open spec fn eok(e: Ext) -> bool {
    ext_id_ok(e.0)
}

pub open spec fn pok(p: Ptr) -> bool {
    var_id_ok(p.address.0)
}

pub open spec fn dyn_ok<T>(a: Array<T>) -> bool {
    a is Dyn && pok(a->Dyn_0)
}

/// The allocation can be lowered: sizes are canonical after alignment.
pub open spec fn alloc_ok(ptr: Ptr, len: RVar, size: usize, word_size: usize) -> bool {
    &&& pok(ptr)
    &&& word_size > 0
    &&& match len {
        RVar::Const(l) => l.v * size + word_size < BABY_BEAR_P,
        RVar::Val(l) => vok(l) && size + word_size < BABY_BEAR_P,
    }
}

/// A straight-line DSL instruction that the assembly compiler accepts, with all positions and
/// constants representable.
pub open spec fn lower_ok(op: DslIr, word_size: usize) -> bool {
    match op {
        DslIr::ImmV(d, _) => vok(d),
        DslIr::ImmF(d, _) => fok(d),
        DslIr::ImmE(d, _) => eok(d),
        DslIr::AddV(d, l, r) => vok(d) && vok(l) && vok(r),
        DslIr::AddVI(d, l, _) => vok(d) && vok(l),
        DslIr::AddF(d, l, r) => fok(d) && fok(l) && fok(r),
        DslIr::AddFI(d, l, _) => fok(d) && fok(l),
        DslIr::AddE(d, l, r) => eok(d) && eok(l) && eok(r),
        DslIr::AddEI(d, l, _) => eok(d) && eok(l),
        DslIr::AddEF(d, l, r) => eok(d) && eok(l) && fok(r),
        DslIr::AddEFFI(d, l, _) => eok(d) && fok(l),
        DslIr::AddEFI(d, l, _) => eok(d) && eok(l),
        DslIr::SubV(d, l, r) => vok(d) && vok(l) && vok(r),
        DslIr::SubVI(d, l, _) => vok(d) && vok(l),
        DslIr::SubVIN(d, _, r) => vok(d) && vok(r),
        DslIr::SubF(d, l, r) => fok(d) && fok(l) && fok(r),
        DslIr::SubFI(d, l, _) => fok(d) && fok(l),
        DslIr::SubFIN(d, _, r) => fok(d) && fok(r),
        DslIr::NegV(d, s) => vok(d) && vok(s),
        DslIr::NegF(d, s) => fok(d) && fok(s),
        DslIr::DivF(d, l, r) => fok(d) && fok(l) && fok(r),
        DslIr::DivFI(d, l, _) => fok(d) && fok(l),
        DslIr::DivFIN(d, _, r) => fok(d) && fok(r),
        DslIr::DivEIN(d, _, r) => eok(d) && eok(r),
        DslIr::DivE(d, l, r) => eok(d) && eok(l) && eok(r),
        DslIr::DivEI(d, l, _) => eok(d) && eok(l),
        DslIr::DivEF(d, l, r) => eok(d) && eok(l) && fok(r),
        DslIr::DivEFI(d, l, r) => eok(d) && eok(l) && modp(r.val()) != 0,
        DslIr::SubEF(d, l, r) => eok(d) && eok(l) && fok(r),
        DslIr::SubEFI(d, l, _) => eok(d) && eok(l),
        DslIr::SubEIN(d, _, r) => eok(d) && eok(r),
        DslIr::SubE(d, l, r) => eok(d) && eok(l) && eok(r),
        DslIr::SubEI(d, l, _) => eok(d) && eok(l),
        DslIr::NegE(d, s) => eok(d) && eok(s),
        DslIr::MulV(d, l, r) => vok(d) && vok(l) && vok(r),
        DslIr::MulVI(d, l, _) => vok(d) && vok(l),
        DslIr::MulF(d, l, r) => fok(d) && fok(l) && fok(r),
        DslIr::MulFI(d, l, _) => fok(d) && fok(l),
        DslIr::MulE(d, l, r) => eok(d) && eok(l) && eok(r),
        DslIr::MulEI(d, l, _) => eok(d) && eok(l),
        DslIr::MulEF(d, l, r) => eok(d) && eok(l) && fok(r),
        DslIr::MulEFI(d, l, _) => eok(d) && eok(l),
        DslIr::CastFV(d, s) => vok(d) && fok(s),
        DslIr::UnsafeCastVF(d, s) => fok(d) && vok(s),
        DslIr::AssertEqV(l, r) => vok(l) && vok(r),
        DslIr::AssertEqVI(l, _) => vok(l),
        DslIr::AssertNeV(l, r) => vok(l) && vok(r),
        DslIr::AssertNeVI(l, _) => vok(l),
        DslIr::AssertEqF(l, r) => fok(l) && fok(r),
        DslIr::AssertEqFI(l, _) => fok(l),
        DslIr::AssertNeF(l, r) => fok(l) && fok(r),
        DslIr::AssertNeFI(l, _) => fok(l),
        DslIr::AssertEqE(l, r) => eok(l) && eok(r),
        DslIr::AssertEqEI(l, _) => eok(l),
        DslIr::AssertNeE(l, r) => eok(l) && eok(r),
        DslIr::AssertNeEI(l, _) => eok(l),
        DslIr::Alloc(p, l, s) => alloc_ok(p, l, s, word_size),
        DslIr::LoadV(v, p, i) => vok(v) && pok(p) && mem_index_ok(i),
        DslIr::LoadF(v, p, i) => fok(v) && pok(p) && mem_index_ok(i),
        DslIr::LoadE(v, p, i) => eok(v) && pok(p) && mem_index_ok(i),
        DslIr::LoadHeapPtr(p) => pok(p),
        DslIr::StoreV(v, p, i) => vok(v) && pok(p) && mem_index_ok(i),
        DslIr::StoreF(v, p, i) => fok(v) && pok(p) && mem_index_ok(i),
        DslIr::StoreE(v, p, i) => eok(v) && pok(p) && mem_index_ok(i),
        DslIr::StoreHeapPtr(p) => pok(p),
        DslIr::HintBitsF(v, _) => fok(v),
        DslIr::HintBitsV(v, _) => vok(v),
        DslIr::Poseidon2PermuteBabyBear(d, s) => dyn_ok(d) && dyn_ok(s),
        DslIr::Poseidon2CompressBabyBear(r, l, rr) => dyn_ok(r) && dyn_ok(l) && dyn_ok(rr),
        DslIr::Error => true,
        DslIr::PrintF(v) => fok(v),
        DslIr::PrintV(v) => vok(v),
        DslIr::PrintE(v) => eok(v),
        DslIr::HintInputVec => true,
        DslIr::StoreHintWord(p, i) => pok(p) && mem_index_ok(i),
        DslIr::Publish(v, i) => fok(v) && vok(i),
        DslIr::CycleTrackerStart(_) => true,
        DslIr::CycleTrackerEnd(_) => true,
        DslIr::Halt => true,
        DslIr::FriReducedOpening(alpha, hint_id, is_init, at_x, at_z, result) => {
            &&& eok(alpha)
            &&& vok(hint_id)
            &&& vok(is_init)
            &&& dyn_ok(at_x)
            &&& dyn_ok(at_z)
            &&& at_z->Dyn_1 is Var
            &&& vok(at_z->Dyn_1->Var_0)
            &&& eok(result)
        },
        _ => false,
    }
}

fn emit(out: &mut Vec<AsmInstruction>, i: AsmInstruction)
    ensures
        final(out)@ == old(out)@.push(i),
{
    out.push(i);
}

fn ext_fp_at(e: Ext, i: i32) -> (r: i32)
    requires
        eok(e),
        0 <= i < 4,
    ensures
        r == efp(e, i as int),
{
    e.fp() + i
}

fn emit_assign_exti(out: &mut Vec<AsmInstruction>, dst: i32, imm: ExtConst)
    requires
        dst <= A0,
    ensures
        final(out)@ == old(out)@ + assign_exti_spec(dst as int, imm),
{
    out.push(AsmInstruction::ImmF(dst, imm[0]));
    out.push(AsmInstruction::ImmF(dst + 1, imm[1]));
    out.push(AsmInstruction::ImmF(dst + 2, imm[2]));
    out.push(AsmInstruction::ImmF(dst + 3, imm[3]));
    assert(final(out)@ =~= old(out)@ + assign_exti_spec(dst as int, imm));
}

fn emit_add_ext_exti(out: &mut Vec<AsmInstruction>, dst: Ext, lhs: Ext, rhs: ExtConst)
    requires
        eok(dst),
        eok(lhs),
    ensures
        final(out)@ == old(out)@ + add_ext_exti_spec(dst, lhs, rhs),
{
    let mut i: i32 = 0;
    while i < 4
        invariant
            0 <= i <= 4,
            eok(dst),
            eok(lhs),
            out@ == old(out)@ + add_ext_exti_spec(dst, lhs, rhs).take(i as int),
        decreases 4 - i,
    {
        out.push(AsmInstruction::AddFI(ext_fp_at(dst, i), ext_fp_at(lhs, i), rhs[i as usize]));
        proof {
            assert(add_ext_exti_spec(dst, lhs, rhs).take(i + 1) =~= add_ext_exti_spec(
                dst,
                lhs,
                rhs,
            ).take(i as int).push(add_ext_exti_spec(dst, lhs, rhs)[i as int]));
        }
        i = i + 1;
    }
    assert(add_ext_exti_spec(dst, lhs, rhs).take(4) =~= add_ext_exti_spec(dst, lhs, rhs));
}

fn emit_sub_exti_ext(out: &mut Vec<AsmInstruction>, dst: Ext, lhs: ExtConst, rhs: Ext)
    requires
        eok(dst),
        eok(rhs),
    ensures
        final(out)@ == old(out)@ + sub_exti_ext_spec(dst, lhs, rhs),
{
    out.push(AsmInstruction::SubFIN(ext_fp_at(dst, 0), lhs[0], ext_fp_at(rhs, 0)));
    out.push(AsmInstruction::SubFIN(ext_fp_at(dst, 1), lhs[1], ext_fp_at(rhs, 1)));
    out.push(AsmInstruction::SubFIN(ext_fp_at(dst, 2), lhs[2], ext_fp_at(rhs, 2)));
    out.push(AsmInstruction::SubFIN(ext_fp_at(dst, 3), lhs[3], ext_fp_at(rhs, 3)));
    assert(final(out)@ =~= old(out)@ + sub_exti_ext_spec(dst, lhs, rhs));
}

fn emit_add_sub_ext_felt(
    out: &mut Vec<AsmInstruction>,
    is_add: bool,
    dst: Ext,
    lhs: Ext,
    rhs: Felt,
)
    requires
        eok(dst),
        eok(lhs),
        fok(rhs),
    ensures
        final(out)@ == old(out)@ + (if is_add {
            add_ext_felt_spec(dst, lhs, rhs)
        } else {
            sub_ext_felt_spec(dst, lhs, rhs)
        }),
{
    if is_add {
        out.push(AsmInstruction::AddF(ext_fp_at(dst, 0), ext_fp_at(lhs, 0), rhs.fp()));
    } else {
        out.push(AsmInstruction::SubF(ext_fp_at(dst, 0), ext_fp_at(lhs, 0), rhs.fp()));
    }
    out.push(AsmInstruction::CopyF(ext_fp_at(dst, 1), ext_fp_at(lhs, 1)));
    out.push(AsmInstruction::CopyF(ext_fp_at(dst, 2), ext_fp_at(lhs, 2)));
    out.push(AsmInstruction::CopyF(ext_fp_at(dst, 3), ext_fp_at(lhs, 3)));
    if is_add {
        assert(final(out)@ =~= old(out)@ + add_ext_felt_spec(dst, lhs, rhs));
    } else {
        assert(final(out)@ =~= old(out)@ + sub_ext_felt_spec(dst, lhs, rhs));
    }
}

fn emit_add_felt_exti(out: &mut Vec<AsmInstruction>, dst: Ext, lhs: Felt, rhs: ExtConst)
    requires
        eok(dst),
        fok(lhs),
    ensures
        final(out)@ == old(out)@ + add_felt_exti_spec(dst, lhs, rhs),
{
    out.push(AsmInstruction::AddFI(ext_fp_at(dst, 0), lhs.fp(), rhs[0]));
    out.push(AsmInstruction::ImmF(ext_fp_at(dst, 1), rhs[1]));
    out.push(AsmInstruction::ImmF(ext_fp_at(dst, 2), rhs[2]));
    out.push(AsmInstruction::ImmF(ext_fp_at(dst, 3), rhs[3]));
    assert(final(out)@ =~= old(out)@ + add_felt_exti_spec(dst, lhs, rhs));
}

/// kind: 0 = MulF, 1 = DivF.
fn emit_muldiv_ext_felt(out: &mut Vec<AsmInstruction>, is_mul: bool, dst: Ext, lhs: Ext, rhs: Felt)
    requires
        eok(dst),
        eok(lhs),
        fok(rhs),
    ensures
        final(out)@ == old(out)@ + (if is_mul {
            mul_ext_felt_spec(dst, lhs, rhs)
        } else {
            div_ext_felt_spec(dst, lhs, rhs)
        }),
{
    let r = rhs.fp();
    if is_mul {
        out.push(AsmInstruction::MulF(ext_fp_at(dst, 0), ext_fp_at(lhs, 0), r));
        out.push(AsmInstruction::MulF(ext_fp_at(dst, 1), ext_fp_at(lhs, 1), r));
        out.push(AsmInstruction::MulF(ext_fp_at(dst, 2), ext_fp_at(lhs, 2), r));
        out.push(AsmInstruction::MulF(ext_fp_at(dst, 3), ext_fp_at(lhs, 3), r));
        assert(final(out)@ =~= old(out)@ + mul_ext_felt_spec(dst, lhs, rhs));
    } else {
        out.push(AsmInstruction::DivF(ext_fp_at(dst, 0), ext_fp_at(lhs, 0), r));
        out.push(AsmInstruction::DivF(ext_fp_at(dst, 1), ext_fp_at(lhs, 1), r));
        out.push(AsmInstruction::DivF(ext_fp_at(dst, 2), ext_fp_at(lhs, 2), r));
        out.push(AsmInstruction::DivF(ext_fp_at(dst, 3), ext_fp_at(lhs, 3), r));
        assert(final(out)@ =~= old(out)@ + div_ext_felt_spec(dst, lhs, rhs));
    }
}

fn emit_mul_ext_felti(out: &mut Vec<AsmInstruction>, dst: Ext, lhs: Ext, rhs: BabyBear)
    requires
        eok(dst),
        eok(lhs),
    ensures
        final(out)@ == old(out)@ + mul_ext_felti_spec(dst, lhs, rhs),
{
    out.push(AsmInstruction::MulFI(ext_fp_at(dst, 0), ext_fp_at(lhs, 0), rhs));
    out.push(AsmInstruction::MulFI(ext_fp_at(dst, 1), ext_fp_at(lhs, 1), rhs));
    out.push(AsmInstruction::MulFI(ext_fp_at(dst, 2), ext_fp_at(lhs, 2), rhs));
    out.push(AsmInstruction::MulFI(ext_fp_at(dst, 3), ext_fp_at(lhs, 3), rhs));
    assert(final(out)@ =~= old(out)@ + mul_ext_felti_spec(dst, lhs, rhs));
}

fn emit_ext_words(out: &mut Vec<AsmInstruction>, is_load: bool, val: Ext, addr: i32, offset: BabyBear)
    requires
        eok(val),
    ensures
        final(out)@ == old(out)@ + (if is_load {
            load_ext_spec(val, addr, offset)
        } else {
            store_ext_spec(val, addr, offset)
        }),
{
    let one = BabyBear::one();
    if is_load {
        out.push(AsmInstruction::LoadFI(ext_fp_at(val, 0), addr, BabyBear::from_canonical_u32(0), one, offset));
        out.push(AsmInstruction::LoadFI(ext_fp_at(val, 1), addr, BabyBear::from_canonical_u32(1), one, offset));
        out.push(AsmInstruction::LoadFI(ext_fp_at(val, 2), addr, BabyBear::from_canonical_u32(2), one, offset));
        out.push(AsmInstruction::LoadFI(ext_fp_at(val, 3), addr, BabyBear::from_canonical_u32(3), one, offset));
        assert(final(out)@ =~= old(out)@ + load_ext_spec(val, addr, offset));
    } else {
        out.push(AsmInstruction::StoreFI(ext_fp_at(val, 0), addr, BabyBear::from_canonical_u32(0), one, offset));
        out.push(AsmInstruction::StoreFI(ext_fp_at(val, 1), addr, BabyBear::from_canonical_u32(1), one, offset));
        out.push(AsmInstruction::StoreFI(ext_fp_at(val, 2), addr, BabyBear::from_canonical_u32(2), one, offset));
        out.push(AsmInstruction::StoreFI(ext_fp_at(val, 3), addr, BabyBear::from_canonical_u32(3), one, offset));
        assert(final(out)@ =~= old(out)@ + store_ext_spec(val, addr, offset));
    }
}

/// `mem[dst] <- mem[src] + c * mem[val]`; assumes `dst != src`.
fn emit_add_scaled(out: &mut Vec<AsmInstruction>, dst: i32, src: i32, val: i32, c: BabyBear)
    ensures
        final(out)@ == old(out)@ + add_scaled_spec(dst, src, val, c),
{
    if c.is_one() {
        out.push(AsmInstruction::AddF(dst, src, val));
        assert(final(out)@ =~= old(out)@ + add_scaled_spec(dst, src, val, c));
    } else {
        out.push(AsmInstruction::MulFI(dst, val, c));
        out.push(AsmInstruction::AddF(dst, dst, src));
        assert(final(out)@ =~= old(out)@ + add_scaled_spec(dst, src, val, c));
    }
}

/// `ceil(x / w) * w`.
fn align(x: usize, w: usize) -> (r: usize)
    requires
        w > 0,
        x + w < BABY_BEAR_P,
    ensures
        r == align_spec(x as int, w as int),
        r < BABY_BEAR_P,
{
    proof {
        assert(((x + w - 1) / w as int) * w <= x + w - 1) by (nonlinear_arith)
            requires
                w > 0,
                x + w - 1 >= 0,
        ;
    }
    ((x + w - 1) / w) * w
}

pub(crate) fn emit_alloc(out: &mut Vec<AsmInstruction>, ptr: Ptr, len: RVar, size: usize, word_size: usize)
    requires
        alloc_ok(ptr, len, size, word_size),
    ensures
        final(out)@ == old(out)@ + alloc_spec(ptr, len, size, word_size),
{
    match len {
        RVar::Const(l) => {
            out.push(AsmInstruction::CopyF(ptr.fp(), HEAP_PTR));
            let inc = BabyBear::from_canonical_usize(align((l.v as usize) * size, word_size));
            out.push(AsmInstruction::AddFI(HEAP_PTR, HEAP_PTR, inc));
            assert(final(out)@ =~= old(out)@ + alloc_spec(ptr, len, size, word_size));
        },
        RVar::Val(l) => {
            out.push(AsmInstruction::CopyF(ptr.fp(), HEAP_PTR));
            let s = BabyBear::from_canonical_usize(align(size, word_size));
            out.push(AsmInstruction::MulFI(A0, l.fp(), s));
            out.push(AsmInstruction::AddF(HEAP_PTR, HEAP_PTR, A0));
            assert(final(out)@ =~= old(out)@ + alloc_spec(ptr, len, size, word_size));
        },
    }
}

fn emit_mem_word(out: &mut Vec<AsmInstruction>, is_load: bool, reg: i32, ptr: Ptr, index: MemIndex)
    requires
        pok(ptr),
        mem_index_ok(index),
    ensures
        final(out)@ == old(out)@ + mem_word_spec(is_load, reg, ptr, index),
{
    match index.fp() {
        IndexTriple::Const(i, o, s) => {
            if is_load {
                out.push(AsmInstruction::LoadFI(reg, ptr.fp(), i, s, o));
            } else {
                out.push(AsmInstruction::StoreFI(reg, ptr.fp(), i, s, o));
            }
            assert(final(out)@ =~= old(out)@ + mem_word_spec(is_load, reg, ptr, index));
        },
        IndexTriple::Var(i, o, s) => {
            emit_add_scaled(out, A0, ptr.fp(), i, s);
            let z = BabyBear::zero();
            if is_load {
                out.push(AsmInstruction::LoadFI(reg, A0, z, z, o));
            } else {
                out.push(AsmInstruction::StoreFI(reg, A0, z, z, o));
            }
            assert(final(out)@ =~= old(out)@ + mem_word_spec(is_load, reg, ptr, index));
        },
    }
}

fn emit_mem_ext(out: &mut Vec<AsmInstruction>, is_load: bool, val: Ext, ptr: Ptr, index: MemIndex)
    requires
        eok(val),
        pok(ptr),
        mem_index_ok(index),
    ensures
        final(out)@ == old(out)@ + mem_ext_spec(is_load, val, ptr, index),
{
    match index.fp() {
        IndexTriple::Const(i, o, s) => {
            let off = i.mul(s).add(o);
            emit_ext_words(out, is_load, val, ptr.fp(), off);
            assert(final(out)@ =~= old(out)@ + mem_ext_spec(is_load, val, ptr, index));
        },
        IndexTriple::Var(i, o, s) => {
            emit_add_scaled(out, A0, ptr.fp(), i, s);
            emit_ext_words(out, is_load, val, A0, o);
            assert(final(out)@ =~= old(out)@ + mem_ext_spec(is_load, val, ptr, index));
        },
    }
}

fn emit_store_hint_word(out: &mut Vec<AsmInstruction>, ptr: Ptr, index: MemIndex)
    requires
        pok(ptr),
        mem_index_ok(index),
    ensures
        final(out)@ == old(out)@ + store_hint_word_spec(ptr, index),
{
    match index.fp() {
        IndexTriple::Const(i, o, s) => {
            out.push(AsmInstruction::StoreHintWordI(ptr.fp(), s.mul(i).add(o)));
            assert(final(out)@ =~= old(out)@ + store_hint_word_spec(ptr, index));
        },
        IndexTriple::Var(i, o, s) => {
            emit_add_scaled(out, A0, ptr.fp(), i, s);
            out.push(AsmInstruction::StoreHintWordI(A0, o));
            assert(final(out)@ =~= old(out)@ + store_hint_word_spec(ptr, index));
        },
    }
}

fn neg_ext(x: ExtConst) -> (r: ExtConst)
    ensures
        r == neg_ext_spec(x),
{
    [x[0].neg(), x[1].neg(), x[2].neg(), x[3].neg()]
}

fn from_base(x: BabyBear) -> (r: ExtConst)
    ensures
        r == from_base_spec(x),
{
    [x, BabyBear::zero(), BabyBear::zero(), BabyBear::zero()]
}

/// Lowers the arithmetic instructions on vars and felts.
fn lower_base_arith(out: &mut Vec<AsmInstruction>, op: &DslIr, word_size: usize)
    requires
        lower_ok(*op, word_size),
        op is ImmV || op is ImmF || op is AddV || op is AddVI || op is AddF || op is AddFI
            || op is SubV || op is SubVI || op is SubVIN || op is SubF || op is SubFI
            || op is SubFIN || op is NegV || op is NegF || op is DivF || op is DivFI
            || op is DivFIN || op is MulV || op is MulVI || op is MulF || op is MulFI
            || op is CastFV || op is UnsafeCastVF,
    ensures
        final(out)@ == old(out)@ + lower_spec(*op, word_size),
{
    let i = match op {
        DslIr::ImmV(d, s) => AsmInstruction::ImmF(d.fp(), *s),
        DslIr::ImmF(d, s) => AsmInstruction::ImmF(d.fp(), *s),
        DslIr::AddV(d, l, r) => AsmInstruction::AddF(d.fp(), l.fp(), r.fp()),
        DslIr::AddVI(d, l, r) => AsmInstruction::AddFI(d.fp(), l.fp(), *r),
        DslIr::AddF(d, l, r) => AsmInstruction::AddF(d.fp(), l.fp(), r.fp()),
        DslIr::AddFI(d, l, r) => AsmInstruction::AddFI(d.fp(), l.fp(), *r),
        DslIr::SubV(d, l, r) => AsmInstruction::SubF(d.fp(), l.fp(), r.fp()),
        DslIr::SubVI(d, l, r) => AsmInstruction::SubFI(d.fp(), l.fp(), *r),
        DslIr::SubVIN(d, l, r) => AsmInstruction::SubFIN(d.fp(), *l, r.fp()),
        DslIr::SubF(d, l, r) => AsmInstruction::SubF(d.fp(), l.fp(), r.fp()),
        DslIr::SubFI(d, l, r) => AsmInstruction::SubFI(d.fp(), l.fp(), *r),
        DslIr::SubFIN(d, l, r) => AsmInstruction::SubFIN(d.fp(), *l, r.fp()),
        DslIr::NegV(d, s) => AsmInstruction::MulFI(d.fp(), s.fp(), BabyBear::neg_one()),
        DslIr::NegF(d, s) => AsmInstruction::MulFI(d.fp(), s.fp(), BabyBear::neg_one()),
        DslIr::DivF(d, l, r) => AsmInstruction::DivF(d.fp(), l.fp(), r.fp()),
        DslIr::DivFI(d, l, r) => AsmInstruction::DivFI(d.fp(), l.fp(), *r),
        DslIr::DivFIN(d, l, r) => AsmInstruction::DivFIN(d.fp(), *l, r.fp()),
        DslIr::MulV(d, l, r) => AsmInstruction::MulF(d.fp(), l.fp(), r.fp()),
        DslIr::MulVI(d, l, r) => AsmInstruction::MulFI(d.fp(), l.fp(), *r),
        DslIr::MulF(d, l, r) => AsmInstruction::MulF(d.fp(), l.fp(), r.fp()),
        DslIr::MulFI(d, l, r) => AsmInstruction::MulFI(d.fp(), l.fp(), *r),
        DslIr::CastFV(d, s) => AsmInstruction::AddFI(d.fp(), s.fp(), BabyBear::zero()),
        DslIr::UnsafeCastVF(d, s) => AsmInstruction::AddFI(d.fp(), s.fp(), BabyBear::zero()),
        _ => AsmInstruction::Halt,
    };
    out.push(i);
    assert(final(out)@ =~= old(out)@ + lower_spec(*op, word_size));
}

/// Lowers the arithmetic instructions on extension elements.
fn lower_ext_arith(out: &mut Vec<AsmInstruction>, op: &DslIr, word_size: usize)
    requires
        lower_ok(*op, word_size),
        op is ImmE || op is AddE || op is AddEI || op is AddEF || op is AddEFFI || op is AddEFI
            || op is DivEIN || op is DivE || op is DivEI || op is DivEF || op is DivEFI
            || op is SubEF || op is SubEFI || op is SubEIN || op is SubE || op is SubEI
            || op is NegE || op is MulE || op is MulEI || op is MulEF || op is MulEFI,
    ensures
        final(out)@ == old(out)@ + lower_spec(*op, word_size),
{
    match op {
        DslIr::ImmE(d, s) => emit_assign_exti(out, d.fp(), *s),
        DslIr::AddE(d, l, r) => emit(out, AsmInstruction::AddE(d.fp(), l.fp(), r.fp())),
        DslIr::AddEI(d, l, r) => emit_add_ext_exti(out, *d, *l, *r),
        DslIr::AddEF(d, l, r) => emit_add_sub_ext_felt(out, true, *d, *l, *r),
        DslIr::AddEFFI(d, l, r) => emit_add_felt_exti(out, *d, *l, *r),
        DslIr::AddEFI(d, l, r) => emit_add_ext_exti(out, *d, *l, from_base(*r)),
        DslIr::DivEIN(d, l, r) => {
            emit_assign_exti(out, A0, *l);
            emit(out, AsmInstruction::DivE(d.fp(), A0, r.fp()));
        },
        DslIr::DivE(d, l, r) => emit(out, AsmInstruction::DivE(d.fp(), l.fp(), r.fp())),
        DslIr::DivEI(d, l, r) => {
            emit_assign_exti(out, A0, *r);
            emit(out, AsmInstruction::DivE(d.fp(), l.fp(), A0));
        },
        DslIr::DivEF(d, l, r) => emit_muldiv_ext_felt(out, false, *d, *l, *r),
        DslIr::DivEFI(d, l, r) => emit_mul_ext_felti(out, *d, *l, r.inverse()),
        DslIr::SubEF(d, l, r) => emit_add_sub_ext_felt(out, false, *d, *l, *r),
        DslIr::SubEFI(d, l, r) => emit_add_ext_exti(out, *d, *l, from_base(r.neg())),
        DslIr::SubEIN(d, l, r) => emit_sub_exti_ext(out, *d, *l, *r),
        DslIr::SubE(d, l, r) => emit(out, AsmInstruction::SubE(d.fp(), l.fp(), r.fp())),
        DslIr::SubEI(d, l, r) => emit_add_ext_exti(out, *d, *l, neg_ext(*r)),
        DslIr::NegE(d, s) => emit_mul_ext_felti(out, *d, *s, BabyBear::neg_one()),
        DslIr::MulE(d, l, r) => emit(out, AsmInstruction::MulE(d.fp(), l.fp(), r.fp())),
        DslIr::MulEI(d, l, r) => {
            emit_assign_exti(out, A0, *r);
            emit(out, AsmInstruction::MulE(d.fp(), l.fp(), A0));
        },
        DslIr::MulEF(d, l, r) => emit_muldiv_ext_felt(out, true, *d, *l, *r),
        DslIr::MulEFI(d, l, r) => emit_mul_ext_felti(out, *d, *l, *r),
        _ => {},
    }
    assert(final(out)@ =~= old(out)@ + lower_spec(*op, word_size));
}

/// Lowers assertions: each is one conditional jump to the trap block.
fn lower_assert(out: &mut Vec<AsmInstruction>, op: &DslIr, word_size: usize)
    requires
        lower_ok(*op, word_size),
        op is AssertEqV || op is AssertEqVI || op is AssertNeV || op is AssertNeVI
            || op is AssertEqF || op is AssertEqFI || op is AssertNeF || op is AssertNeFI
            || op is AssertEqE || op is AssertEqEI || op is AssertNeE || op is AssertNeEI,
    ensures
        final(out)@ == old(out)@ + lower_spec(*op, word_size),
{
    let t = BabyBear::one();
    let i = match op {
        DslIr::AssertEqV(l, r) => AsmInstruction::Bne(t, l.fp(), r.fp()),
        DslIr::AssertEqVI(l, r) => AsmInstruction::BneI(t, l.fp(), *r),
        DslIr::AssertNeV(l, r) => AsmInstruction::Beq(t, l.fp(), r.fp()),
        DslIr::AssertNeVI(l, r) => AsmInstruction::BeqI(t, l.fp(), *r),
        DslIr::AssertEqF(l, r) => AsmInstruction::Bne(t, l.fp(), r.fp()),
        DslIr::AssertEqFI(l, r) => AsmInstruction::BneI(t, l.fp(), *r),
        DslIr::AssertNeF(l, r) => AsmInstruction::Beq(t, l.fp(), r.fp()),
        DslIr::AssertNeFI(l, r) => AsmInstruction::BeqI(t, l.fp(), *r),
        DslIr::AssertEqE(l, r) => AsmInstruction::BneE(t, l.fp(), r.fp()),
        DslIr::AssertEqEI(l, r) => AsmInstruction::BneEI(t, l.fp(), *r),
        DslIr::AssertNeE(l, r) => AsmInstruction::BeqE(t, l.fp(), r.fp()),
        DslIr::AssertNeEI(l, r) => AsmInstruction::BeqEI(t, l.fp(), *r),
        _ => AsmInstruction::Halt,
    };
    out.push(i);
    assert(final(out)@ =~= old(out)@ + lower_spec(*op, word_size));
}

/// Lowers memory, hashing and miscellaneous instructions.
fn lower_misc(out: &mut Vec<AsmInstruction>, op: &DslIr, word_size: usize)
    requires
        lower_ok(*op, word_size),
        op is Alloc || op is LoadV || op is LoadF || op is LoadE || op is LoadHeapPtr
            || op is StoreV || op is StoreF || op is StoreE || op is StoreHeapPtr
            || op is HintBitsF || op is HintBitsV || op is Poseidon2PermuteBabyBear
            || op is Poseidon2CompressBabyBear || op is Error || op is PrintF || op is PrintV
            || op is PrintE || op is HintInputVec || op is StoreHintWord || op is Publish
            || op is CycleTrackerStart || op is CycleTrackerEnd || op is Halt
            || op is FriReducedOpening,
    ensures
        final(out)@ == old(out)@ + lower_spec(*op, word_size),
{
    match op {
        DslIr::Alloc(p, l, s) => emit_alloc(out, *p, *l, *s, word_size),
        DslIr::LoadV(v, p, i) => emit_mem_word(out, true, v.fp(), *p, *i),
        DslIr::LoadF(v, p, i) => emit_mem_word(out, true, v.fp(), *p, *i),
        DslIr::LoadE(v, p, i) => emit_mem_ext(out, true, *v, *p, *i),
        DslIr::LoadHeapPtr(p) => emit(
            out,
            AsmInstruction::AddFI(p.fp(), HEAP_PTR, BabyBear::zero()),
        ),
        DslIr::StoreV(v, p, i) => emit_mem_word(out, false, v.fp(), *p, *i),
        DslIr::StoreF(v, p, i) => emit_mem_word(out, false, v.fp(), *p, *i),
        DslIr::StoreE(v, p, i) => emit_mem_ext(out, false, *v, *p, *i),
        DslIr::StoreHeapPtr(p) => emit(
            out,
            AsmInstruction::AddFI(HEAP_PTR, p.fp(), BabyBear::zero()),
        ),
        DslIr::HintBitsF(v, l) => emit(out, AsmInstruction::HintBits(v.fp(), *l)),
        DslIr::HintBitsV(v, l) => emit(out, AsmInstruction::HintBits(v.fp(), *l)),
        DslIr::Poseidon2PermuteBabyBear(d, s) => emit(
            out,
            AsmInstruction::Poseidon2Permute(d.ptr().fp(), s.ptr().fp()),
        ),
        DslIr::Poseidon2CompressBabyBear(r, l, rr) => emit(
            out,
            AsmInstruction::Poseidon2Compress(r.ptr().fp(), l.ptr().fp(), rr.ptr().fp()),
        ),
        DslIr::Error => emit(out, AsmInstruction::j(BabyBear::one())),
        DslIr::PrintF(v) => emit(out, AsmInstruction::PrintF(v.fp())),
        DslIr::PrintV(v) => emit(out, AsmInstruction::PrintV(v.fp())),
        DslIr::PrintE(v) => emit(out, AsmInstruction::PrintE(v.fp())),
        DslIr::HintInputVec => emit(out, AsmInstruction::HintInputVec),
        DslIr::StoreHintWord(p, i) => emit_store_hint_word(out, *p, *i),
        DslIr::Publish(v, i) => emit(out, AsmInstruction::Publish(v.fp(), i.fp())),
        DslIr::CycleTrackerStart(_) => emit(out, AsmInstruction::CycleTrackerStart),
        DslIr::CycleTrackerEnd(_) => emit(out, AsmInstruction::CycleTrackerEnd),
        DslIr::Halt => emit(out, AsmInstruction::Halt),
        DslIr::FriReducedOpening(alpha, hint_id, is_init, at_x, at_z, result) => {
            let len = match at_z.len() {
                Usize::Var(v) => v.fp(),
                Usize::Const(_) => 0,
            };
            emit(
                out,
                AsmInstruction::FriReducedOpening(
                    at_x.ptr().fp(),
                    at_z.ptr().fp(),
                    len,
                    alpha.fp(),
                    result.fp(),
                    hint_id.fp(),
                    is_init.fp(),
                ),
            );
        },
        _ => {},
    }
    assert(final(out)@ =~= old(out)@ + lower_spec(*op, word_size));
}

/// Lowers one straight-line DSL instruction, appending its assembly to `out`.
pub fn lower_straight_line(out: &mut Vec<AsmInstruction>, op: &DslIr, word_size: usize)
    requires
        lower_ok(*op, word_size),
    ensures
        final(out)@ == old(out)@ + lower_spec(*op, word_size),
{
    match op {
        DslIr::ImmV(..) | DslIr::ImmF(..) | DslIr::AddV(..) | DslIr::AddVI(..) | DslIr::AddF(..)
        | DslIr::AddFI(..) | DslIr::SubV(..) | DslIr::SubVI(..) | DslIr::SubVIN(..)
        | DslIr::SubF(..) | DslIr::SubFI(..) | DslIr::SubFIN(..) | DslIr::NegV(..)
        | DslIr::NegF(..) | DslIr::DivF(..) | DslIr::DivFI(..) | DslIr::DivFIN(..)
        | DslIr::MulV(..) | DslIr::MulVI(..) | DslIr::MulF(..) | DslIr::MulFI(..)
        | DslIr::CastFV(..) | DslIr::UnsafeCastVF(..) => lower_base_arith(out, op, word_size),
        DslIr::ImmE(..) | DslIr::AddE(..) | DslIr::AddEI(..) | DslIr::AddEF(..)
        | DslIr::AddEFFI(..) | DslIr::AddEFI(..) | DslIr::DivEIN(..) | DslIr::DivE(..)
        | DslIr::DivEI(..) | DslIr::DivEF(..) | DslIr::DivEFI(..) | DslIr::SubEF(..)
        | DslIr::SubEFI(..) | DslIr::SubEIN(..) | DslIr::SubE(..) | DslIr::SubEI(..)
        | DslIr::NegE(..) | DslIr::MulE(..) | DslIr::MulEI(..) | DslIr::MulEF(..)
        | DslIr::MulEFI(..) => lower_ext_arith(out, op, word_size),
        DslIr::AssertEqV(..) | DslIr::AssertEqVI(..) | DslIr::AssertNeV(..)
        | DslIr::AssertNeVI(..) | DslIr::AssertEqF(..) | DslIr::AssertEqFI(..)
        | DslIr::AssertNeF(..) | DslIr::AssertNeFI(..) | DslIr::AssertEqE(..)
        | DslIr::AssertEqEI(..) | DslIr::AssertNeE(..) | DslIr::AssertNeEI(..) => lower_assert(
            out,
            op,
            word_size,
        ),
        _ => lower_misc(out, op, word_size),
    }
}

/// The length read by the allocation from the variable `l`: its value, or the old heap pointer
/// when `l` is the pointer variable itself, which the allocation writes first.
pub open spec fn len_value(f: spec_fn(int) -> int, ptr: Ptr, l: Var) -> int {
    if vfp(l) == pfp(ptr) {
        f(HEAP_PTR as int)
    } else {
        f(vfp(l) as int)
    }
}

/// What the heap allocation does when it runs, the heap pointer holding `h`: the pointer
/// receives `h`, and the heap pointer moves past the array, by `len * size` rounded up to the
/// word size for a constant length, or by `len` times `size` rounded up for a length in a
/// variable.  When `h` is a multiple of the word size and nothing wraps around, the heap
/// pointer stays a multiple of the word size and the cells `[h, h + len * size)` lie below it.
pub proof fn lemma_heap_alloc_moves_heap_pointer(
    ptr: Ptr,
    len: RVar,
    size: usize,
    word_size: usize,
    f: spec_fn(int) -> int,
)
    requires
        alloc_ok(ptr, len, size, word_size),
        0 <= f(HEAP_PTR as int) < BABY_BEAR_P,
    ensures
        ({
            let h = f(HEAP_PTR as int);
            let step = match len {
                RVar::Const(l) => align_spec(l.v * size, word_size as int),
                RVar::Val(l) => modp(len_value(f, ptr, l) * align_spec(size as int, word_size as int)),
            };
            let n = match len {
                RVar::Const(l) => l.v as int,
                RVar::Val(l) => len_value(f, ptr, l),
            };
            &&& exec_fields(f, alloc_spec(ptr, len, size, word_size)) is Some
            &&& exec_fields(f, alloc_spec(ptr, len, size, word_size))->Some_0(pfp(ptr) as int) == h
            &&& exec_fields(f, alloc_spec(ptr, len, size, word_size))->Some_0(HEAP_PTR as int)
                == modp(h + step)
            &&& (h % (word_size as int) == 0 && 0 <= n && h + n * align_spec(size as int, word_size as int)
                < BABY_BEAR_P && h + step < BABY_BEAR_P) ==> {
                &&& modp(h + step) % (word_size as int) == 0
                &&& h + n * size <= modp(h + step)
            }
        }),
{
    let w = word_size as int;
    let h = f(HEAP_PTR as int);
    let pp = pfp(ptr) as int;
    assert(pp < STACK_TOP);
    assert(pp != HEAP_PTR as int && pp != A0 as int);
    let s = alloc_spec(ptr, len, size, word_size);
    crate::field::lemma_modp_small(h);
    let f1 = frame_set(f, pp, h);
    assert(exec_field(f, s[0]) == Some(f1));
    assert(f1(HEAP_PTR as int) == h);
    lemma_align_multiple(size as int, w);
    match len {
        RVar::Const(l) => {
            let st = align_spec(l.v * size, w);
            lemma_align_multiple(l.v * size, w);
            assert(st < BABY_BEAR_P) by {
                lemma_align_below(l.v * size, w);
            }
            crate::field::lemma_modp_small(st);
            let f2 = frame_set(f1, HEAP_PTR as int, modp(h + bb(st).val()));
            assert(exec_field(f1, s[1]) == Some(f2));
            assert(s.drop_first().drop_first() =~= Seq::<AsmInstruction>::empty());
            assert(exec_fields(f2, s.drop_first().drop_first()) == Some(f2));
            assert(exec_fields(f1, s.drop_first()) == Some(f2));
            if h % w == 0 && h + st < BABY_BEAR_P {
                crate::field::lemma_modp_small(h + st);
                lemma_sum_multiple(h, st, w);
                assert(l.v * size <= st);
                assert(h + (l.v as int) * size <= h + st);
            }
        },
        RVar::Val(l) => {
            let lp = vfp(l) as int;
            assert(lp < STACK_TOP);
            let al = align_spec(size as int, w);
            assert(al < BABY_BEAR_P) by {
                lemma_align_below(size as int, w);
            }
            crate::field::lemma_modp_small(al);
            let f2 = frame_set(f1, A0 as int, modp(f1(lp) * bb(al).val()));
            assert(exec_field(f1, s[1]) == Some(f2));
            let f3 = frame_set(f2, HEAP_PTR as int, modp(f2(HEAP_PTR as int) + f2(A0 as int)));
            assert(exec_field(f2, s[2]) == Some(f3));
            assert(s.drop_first().drop_first().drop_first() =~= Seq::<AsmInstruction>::empty());
            assert(exec_fields(f3, s.drop_first().drop_first().drop_first()) == Some(f3));
            assert(exec_fields(f2, s.drop_first().drop_first()) == Some(f3));
            assert(exec_fields(f1, s.drop_first()) == Some(f3));
            assert(f1(lp) == len_value(f, ptr, l));
            let n = len_value(f, ptr, l);
            let st = modp(n * al);
            crate::field::lemma_modp_basics(h + st);
            crate::field::lemma_modp_basics(n * al);
            if h % w == 0 && 0 <= n && h + n * al < BABY_BEAR_P && h + st < BABY_BEAR_P {
                assert(0 <= n * al) by (nonlinear_arith)
                    requires
                        0 <= n,
                        0 <= al,
                ;
                crate::field::lemma_modp_small(n * al);
                crate::field::lemma_modp_small(h + st);
                assert((n * al) % w == 0) by {
                    lemma_multiple_times(al, n, w);
                }
                lemma_sum_multiple(h, n * al, w);
                assert(n * (size as int) <= n * al) by (nonlinear_arith)
                    requires
                        0 <= n,
                        size <= al,
                ;
            }
        },
    }
}

/// The rounding is a multiple of `w` and not below `x`.
proof fn lemma_align_multiple(x: int, w: int)
    requires
        0 <= x,
        0 < w,
    ensures
        align_spec(x, w) % w == 0,
        x <= align_spec(x, w),
        0 <= align_spec(x, w),
{
    let q = (x + w - 1) / w;
    vstd::arithmetic::div_mod::lemma_fundamental_div_mod(x + w - 1, w);
    vstd::arithmetic::div_mod::lemma_mod_multiples_basic(q, w);
    assert(q * w == w * q) by (nonlinear_arith);
    vstd::arithmetic::div_mod::lemma_mod_bound(x + w - 1, w);
    assert(0 <= q) by {
        vstd::arithmetic::div_mod::lemma_div_pos_is_pos(x + w - 1, w);
    }
}

/// The rounding of `x` stays below `x + w`.
proof fn lemma_align_below(x: int, w: int)
    requires
        0 <= x,
        0 < w,
    ensures
        align_spec(x, w) < x + w,
{
    let q = (x + w - 1) / w;
    vstd::arithmetic::div_mod::lemma_fundamental_div_mod(x + w - 1, w);
    vstd::arithmetic::div_mod::lemma_mod_bound(x + w - 1, w);
    assert(q * w == w * q) by (nonlinear_arith);
}

/// A sum of multiples of `w` is a multiple of `w`.
proof fn lemma_sum_multiple(a: int, b: int, w: int)
    requires
        0 < w,
        a % w == 0,
        b % w == 0,
    ensures
        (a + b) % w == 0,
{
    vstd::arithmetic::div_mod::lemma_add_mod_noop(a, b, w);
    vstd::arithmetic::div_mod::lemma_small_mod(0, w as nat);
}

/// A multiple of a multiple of `w` is a multiple of `w`.
proof fn lemma_multiple_times(a: int, n: int, w: int)
    requires
        0 < w,
        a % w == 0,
    ensures
        (n * a) % w == 0,
{
    vstd::arithmetic::div_mod::lemma_mul_mod_noop_right(n, a, w);
    assert(n * 0 == 0);
    vstd::arithmetic::div_mod::lemma_small_mod(0, w as nat);
}

/// What a straight-line base-field DSL instruction means on the frame: the cell it sets and the
/// field value it puts there, in terms of the cells of its operands (`None` for the other
/// instructions).
pub open spec fn dsl_base_effect(op: DslIr, f: spec_fn(int) -> int) -> Option<(int, int)> {
    match op {
        DslIr::ImmV(d, c) => Some((vfp(d) as int, modp(c.val()))),
        DslIr::ImmF(d, c) => Some((ffp(d) as int, modp(c.val()))),
        DslIr::AddV(d, l, r) => Some((vfp(d) as int, modp(f(vfp(l) as int) + f(vfp(r) as int)))),
        DslIr::AddVI(d, l, c) => Some((vfp(d) as int, modp(f(vfp(l) as int) + c.val()))),
        DslIr::AddF(d, l, r) => Some((ffp(d) as int, modp(f(ffp(l) as int) + f(ffp(r) as int)))),
        DslIr::AddFI(d, l, c) => Some((ffp(d) as int, modp(f(ffp(l) as int) + c.val()))),
        DslIr::SubV(d, l, r) => Some((vfp(d) as int, modp(f(vfp(l) as int) - f(vfp(r) as int)))),
        DslIr::SubVI(d, l, c) => Some((vfp(d) as int, modp(f(vfp(l) as int) - c.val()))),
        DslIr::SubVIN(d, c, r) => Some((vfp(d) as int, modp(c.val() - f(vfp(r) as int)))),
        DslIr::SubF(d, l, r) => Some((ffp(d) as int, modp(f(ffp(l) as int) - f(ffp(r) as int)))),
        DslIr::SubFI(d, l, c) => Some((ffp(d) as int, modp(f(ffp(l) as int) - c.val()))),
        DslIr::SubFIN(d, c, r) => Some((ffp(d) as int, modp(c.val() - f(ffp(r) as int)))),
        DslIr::NegV(d, x) => Some((vfp(d) as int, modp(-f(vfp(x) as int)))),
        DslIr::NegF(d, x) => Some((ffp(d) as int, modp(-f(ffp(x) as int)))),
        DslIr::MulV(d, l, r) => Some((vfp(d) as int, modp(f(vfp(l) as int) * f(vfp(r) as int)))),
        DslIr::MulVI(d, l, c) => Some((vfp(d) as int, modp(f(vfp(l) as int) * c.val()))),
        DslIr::MulF(d, l, r) => Some((ffp(d) as int, modp(f(ffp(l) as int) * f(ffp(r) as int)))),
        DslIr::MulFI(d, l, c) => Some((ffp(d) as int, modp(f(ffp(l) as int) * c.val()))),
        DslIr::DivF(d, l, r) => Some(
            (ffp(d) as int, modp(f(ffp(l) as int) * field_inv(modp(f(ffp(r) as int))))),
        ),
        DslIr::DivFI(d, l, c) => Some((ffp(d) as int, modp(f(ffp(l) as int) * field_inv(modp(c.val()))))),
        DslIr::DivFIN(d, c, r) => Some(
            (ffp(d) as int, modp(c.val() * field_inv(modp(f(ffp(r) as int))))),
        ),
        DslIr::CastFV(d, x) => Some((vfp(d) as int, modp(f(ffp(x) as int)))),
        DslIr::UnsafeCastVF(d, x) => Some((ffp(d) as int, modp(f(vfp(x) as int)))),
        DslIr::LoadHeapPtr(p) => Some((pfp(p) as int, modp(f(HEAP_PTR as int)))),
        DslIr::StoreHeapPtr(p) => Some((HEAP_PTR as int, modp(f(pfp(p) as int)))),
        _ => None,
    }
}

/// Lowering a straight-line base-field DSL instruction gives code that, run on a frame, sets
/// the instruction's destination cell to the value the instruction denotes and leaves every other
/// cell unchanged.
pub proof fn lemma_lower_base_op(op: DslIr, word_size: usize, f: spec_fn(int) -> int)
    requires
        dsl_base_effect(op, f) is Some,
    ensures
        exec_fields(f, lower_spec(op, word_size)) == Some(
            frame_set(f, dsl_base_effect(op, f)->Some_0.0, dsl_base_effect(op, f)->Some_0.1),
        ),
{
    let s = lower_spec(op, word_size);
    assert(s.len() == 1);
    assert(s =~= seq![s[0]]);
    lemma_exec_fields_single(f, s[0]);
    match op {
        DslIr::NegV(d, x) => {
            lemma_neg_as_product(f(vfp(x) as int));
        },
        DslIr::NegF(d, x) => {
            lemma_neg_as_product(f(ffp(x) as int));
        },
        _ => {},
    }
}

/// Multiplying by `p - 1` negates.
proof fn lemma_neg_as_product(x: int)
    ensures
        modp(x * (-1 + 2013265921)) == modp(-x),
{
    crate::field::lemma_modp_small(2013265920);
    assert(modp(-1int) == 2013265920) by {
        vstd::arithmetic::div_mod::lemma_mod_add_multiples_vanish(-1, 2013265921);
        crate::field::lemma_modp_small(2013265920);
    }
    crate::field::lemma_eqm_mul(x, x, -1 + 2013265921, -1);
    assert(x * -1 == -x);
}

/// The condition a base-field DSL assertion checks on the frame (`None` for the other
/// instructions).
pub open spec fn dsl_assertion(op: DslIr, f: spec_fn(int) -> int) -> Option<bool> {
    match op {
        DslIr::AssertEqV(l, r) => Some(modp(f(vfp(l) as int)) == modp(f(vfp(r) as int))),
        DslIr::AssertEqVI(l, c) => Some(modp(f(vfp(l) as int)) == modp(c.val())),
        DslIr::AssertNeV(l, r) => Some(modp(f(vfp(l) as int)) != modp(f(vfp(r) as int))),
        DslIr::AssertNeVI(l, c) => Some(modp(f(vfp(l) as int)) != modp(c.val())),
        DslIr::AssertEqF(l, r) => Some(modp(f(ffp(l) as int)) == modp(f(ffp(r) as int))),
        DslIr::AssertEqFI(l, c) => Some(modp(f(ffp(l) as int)) == modp(c.val())),
        DslIr::AssertNeF(l, r) => Some(modp(f(ffp(l) as int)) != modp(f(ffp(r) as int))),
        DslIr::AssertNeFI(l, c) => Some(modp(f(ffp(l) as int)) != modp(c.val())),
        _ => None,
    }
}

/// A lowered base-field assertion is a single branch to the trap, taken exactly when the
/// asserted condition fails on the frame.
pub proof fn lemma_lower_assertion(op: DslIr, word_size: usize, f: spec_fn(int) -> int)
    requires
        dsl_assertion(op, f) is Some,
    ensures
        lower_spec(op, word_size).len() == 1,
        branch_effect(lower_spec(op, word_size)[0], f) == Some((!dsl_assertion(op, f)->Some_0, trap())),
{
}

/// What an extension-field DSL instruction means on the frame: the first of the
/// four cells of its destination, and the four field values it puts there, in terms of the
/// cells of its operands (`None` for the other instructions).
pub open spec fn dsl_ext_effect(op: DslIr, f: spec_fn(int) -> int) -> Option<(int, Seq<int>)> {
    match op {
        DslIr::AddE(d, l, r) => Some((efp(d, 0) as int, reduce4(ext_add_int(frame_ext(f, efp(l, 0) as int), frame_ext(f, efp(r, 0) as int))))),
        DslIr::SubE(d, l, r) => Some((efp(d, 0) as int, reduce4(ext_sub_int(frame_ext(f, efp(l, 0) as int), frame_ext(f, efp(r, 0) as int))))),
        DslIr::MulE(d, l, r) => Some((efp(d, 0) as int, reduce4(ext_mul_int(frame_ext(f, efp(l, 0) as int), frame_ext(f, efp(r, 0) as int))))),
        DslIr::DivE(d, l, r) => Some((efp(d, 0) as int, reduce4(ext_mul_int(frame_ext(f, efp(l, 0) as int), ext_inv(frame_ext(f, efp(r, 0) as int)))))),
        DslIr::ImmE(d, c) => Some((efp(d, 0) as int, seq![
            modp(c[0].val()),
            modp(c[1].val()),
            modp(c[2].val()),
            modp(c[3].val()),
        ])),
        DslIr::AddEI(d, l, c) => Some((efp(d, 0) as int, seq![
            modp(f(efp(l, 0) as int) + c[0].val()),
            modp(f(efp(l, 1) as int) + c[1].val()),
            modp(f(efp(l, 2) as int) + c[2].val()),
            modp(f(efp(l, 3) as int) + c[3].val()),
        ])),
        DslIr::AddEFI(d, l, c) => Some((efp(d, 0) as int, seq![
            modp(f(efp(l, 0) as int) + c.val()),
            modp(f(efp(l, 1) as int)),
            modp(f(efp(l, 2) as int)),
            modp(f(efp(l, 3) as int)),
        ])),
        DslIr::AddEF(d, l, r) => Some((efp(d, 0) as int, seq![
            modp(f(efp(l, 0) as int) + f(ffp(r) as int)),
            modp(f(efp(l, 1) as int)),
            modp(f(efp(l, 2) as int)),
            modp(f(efp(l, 3) as int)),
        ])),
        DslIr::AddEFFI(d, l, c) => Some((efp(d, 0) as int, seq![
            modp(f(ffp(l) as int) + c[0].val()),
            modp(c[1].val()),
            modp(c[2].val()),
            modp(c[3].val()),
        ])),
        DslIr::SubEF(d, l, r) => Some((efp(d, 0) as int, seq![
            modp(f(efp(l, 0) as int) - f(ffp(r) as int)),
            modp(f(efp(l, 1) as int)),
            modp(f(efp(l, 2) as int)),
            modp(f(efp(l, 3) as int)),
        ])),
        DslIr::SubEFI(d, l, c) => Some((efp(d, 0) as int, seq![
            modp(f(efp(l, 0) as int) - c.val()),
            modp(f(efp(l, 1) as int)),
            modp(f(efp(l, 2) as int)),
            modp(f(efp(l, 3) as int)),
        ])),
        DslIr::SubEIN(d, c, r) => Some((efp(d, 0) as int, seq![
            modp(c[0].val() - f(efp(r, 0) as int)),
            modp(c[1].val() - f(efp(r, 1) as int)),
            modp(c[2].val() - f(efp(r, 2) as int)),
            modp(c[3].val() - f(efp(r, 3) as int)),
        ])),
        DslIr::SubEI(d, l, c) => Some((efp(d, 0) as int, seq![
            modp(f(efp(l, 0) as int) - c[0].val()),
            modp(f(efp(l, 1) as int) - c[1].val()),
            modp(f(efp(l, 2) as int) - c[2].val()),
            modp(f(efp(l, 3) as int) - c[3].val()),
        ])),
        DslIr::MulEF(d, l, r) => Some((efp(d, 0) as int, seq![
            modp(f(efp(l, 0) as int) * f(ffp(r) as int)),
            modp(f(efp(l, 1) as int) * f(ffp(r) as int)),
            modp(f(efp(l, 2) as int) * f(ffp(r) as int)),
            modp(f(efp(l, 3) as int) * f(ffp(r) as int)),
        ])),
        DslIr::MulEFI(d, l, c) => Some((efp(d, 0) as int, seq![
            modp(f(efp(l, 0) as int) * c.val()),
            modp(f(efp(l, 1) as int) * c.val()),
            modp(f(efp(l, 2) as int) * c.val()),
            modp(f(efp(l, 3) as int) * c.val()),
        ])),
        DslIr::NegE(d, l) => Some((efp(d, 0) as int, seq![
            modp(-f(efp(l, 0) as int)),
            modp(-f(efp(l, 1) as int)),
            modp(-f(efp(l, 2) as int)),
            modp(-f(efp(l, 3) as int)),
        ])),
        DslIr::DivEF(d, l, r) => Some((efp(d, 0) as int, seq![
            modp(f(efp(l, 0) as int) * field_inv(modp(f(ffp(r) as int)))),
            modp(f(efp(l, 1) as int) * field_inv(modp(f(ffp(r) as int)))),
            modp(f(efp(l, 2) as int) * field_inv(modp(f(ffp(r) as int)))),
            modp(f(efp(l, 3) as int) * field_inv(modp(f(ffp(r) as int)))),
        ])),
        _ => None,
    }
}

/// The frame position of a representable extension element's coordinate, and of a felt.
proof fn lemma_efp_value(e: Ext, i: int)
    requires
        eok(e),
        0 <= i < 4,
    ensures
        efp(e, i) as int == ext_fp_spec(e.0) + i,
{
}

proof fn lemma_ffp_value(x: Felt)
    requires
        fok(x),
    ensures
        ffp(x) as int == felt_fp_spec(x.0),
{
    assert(0 <= x.0 / 2);
}

/// The cells of two representable extension elements are the same or disjoint, and never a
/// felt's.
proof fn lemma_ext_cells(d: Ext, l: Ext, x: Felt)
    requires
        eok(d),
        eok(l),
        fok(x),
    ensures
        forall|i: int| 0 <= i < 4 ==> #[trigger] (efp(d, i) as int) == efp(d, 0) as int + i,
        forall|i: int| 0 <= i < 4 ==> #[trigger] (efp(l, i) as int) == efp(l, 0) as int + i,
        d == l || (efp(d, 0) as int) + 4 <= (efp(l, 0) as int) || (efp(l, 0) as int) + 4 <= (efp(d, 0) as int),
        (ffp(x) as int) < (efp(d, 0) as int) || (efp(d, 0) as int) + 4 <= (ffp(x) as int),
{
    lemma_ffp_value(x);
    assert forall|i: int| 0 <= i < 4 implies #[trigger] (efp(d, i) as int) == efp(d, 0) as int + i by {
        lemma_efp_value(d, i);
        lemma_efp_value(d, 0);
    }
    assert forall|i: int| 0 <= i < 4 implies #[trigger] (efp(l, i) as int) == efp(l, 0) as int + i by {
        lemma_efp_value(l, i);
        lemma_efp_value(l, 0);
    }
    lemma_efp_value(d, 0);
    lemma_efp_value(l, 0);
    lemma_frame_slots_disjoint(0, 0, x.0, x.0, d.0, d.0, 0, 0);
    lemma_frame_slots_disjoint(0, 0, x.0, x.0, d.0, d.0, 1, 0);
    lemma_frame_slots_disjoint(0, 0, x.0, x.0, d.0, d.0, 2, 0);
    lemma_frame_slots_disjoint(0, 0, x.0, x.0, d.0, d.0, 3, 0);
    if d != l {
        assert(ext_fp_spec(d.0) != ext_fp_spec(l.0));
    }
}

/// Four field instructions run one after the other.
proof fn lemma_exec_fields_4(f: spec_fn(int) -> int, s: Seq<AsmInstruction>)
    requires
        s.len() == 4,
    ensures
        exec_fields(f, s) == match exec_field(f, s[0]) {
            Some(g1) => match exec_field(g1, s[1]) {
                Some(g2) => match exec_field(g2, s[2]) {
                    Some(g3) => exec_field(g3, s[3]),
                    None => None,
                },
                None => None,
            },
            None => None,
        },
{
    let s1 = s.drop_first();
    let s2 = s1.drop_first();
    let s3 = s2.drop_first();
    let s4 = s3.drop_first();
    assert(s4.len() == 0);
    assert(s1[0] == s[1] && s2[0] == s[2] && s3[0] == s[3]);
    match exec_field(f, s[0]) {
        Some(g1) => {
            assert(exec_fields(f, s) == exec_fields(g1, s1));
            match exec_field(g1, s1[0]) {
                Some(g2) => {
                    assert(exec_fields(g1, s1) == exec_fields(g2, s2));
                    match exec_field(g2, s2[0]) {
                        Some(g3) => {
                            assert(exec_fields(g2, s2) == exec_fields(g3, s3));
                            match exec_field(g3, s3[0]) {
                                Some(g4) => {
                                    assert(exec_fields(g3, s3) == exec_fields(g4, s4));
                                    assert(exec_fields(g4, s4) == Some(g4));
                                },
                                None => {},
                            }
                        },
                        None => {},
                    }
                },
                None => {},
            }
        },
        None => {},
    }
}

/// The four cells from `b` hold `vals` and every other cell is as in `f`.
pub open spec fn ext_written(g: spec_fn(int) -> int, f: spec_fn(int) -> int, b: int, vals: Seq<int>) -> bool {
    forall|x: int| #[trigger] g(x) == if b <= x < b + 4 {
        vals[x - b]
    } else {
        f(x)
    }
}

#[verifier::spinoff_prover]
proof fn lemma_lower_ext_imme(d: Ext, c: ExtConst, word_size: usize, f: spec_fn(int) -> int)
    requires
        lower_ok(DslIr::ImmE(d, c), word_size),
    ensures
        exec_fields(f, lower_spec(DslIr::ImmE(d, c), word_size)) is Some,
        ext_written(
            exec_fields(f, lower_spec(DslIr::ImmE(d, c), word_size))->Some_0,
            f,
            dsl_ext_effect(DslIr::ImmE(d, c), f)->Some_0.0,
            dsl_ext_effect(DslIr::ImmE(d, c), f)->Some_0.1,
        ),
{
    lemma_exec_fields_4(f, lower_spec(DslIr::ImmE(d, c), word_size));
    lemma_ext_cells(d, d, Felt(0));
}

#[verifier::spinoff_prover]
proof fn lemma_lower_ext_addei(d: Ext, l: Ext, c: ExtConst, word_size: usize, f: spec_fn(int) -> int)
    requires
        lower_ok(DslIr::AddEI(d, l, c), word_size),
    ensures
        exec_fields(f, lower_spec(DslIr::AddEI(d, l, c), word_size)) is Some,
        ext_written(
            exec_fields(f, lower_spec(DslIr::AddEI(d, l, c), word_size))->Some_0,
            f,
            dsl_ext_effect(DslIr::AddEI(d, l, c), f)->Some_0.0,
            dsl_ext_effect(DslIr::AddEI(d, l, c), f)->Some_0.1,
        ),
{
    lemma_exec_fields_4(f, lower_spec(DslIr::AddEI(d, l, c), word_size));
    lemma_ext_cells(d, l, Felt(0));
}

#[verifier::spinoff_prover]
proof fn lemma_lower_ext_addefi(d: Ext, l: Ext, c: BabyBear, word_size: usize, f: spec_fn(int) -> int)
    requires
        lower_ok(DslIr::AddEFI(d, l, c), word_size),
    ensures
        exec_fields(f, lower_spec(DslIr::AddEFI(d, l, c), word_size)) is Some,
        ext_written(
            exec_fields(f, lower_spec(DslIr::AddEFI(d, l, c), word_size))->Some_0,
            f,
            dsl_ext_effect(DslIr::AddEFI(d, l, c), f)->Some_0.0,
            dsl_ext_effect(DslIr::AddEFI(d, l, c), f)->Some_0.1,
        ),
{
    lemma_exec_fields_4(f, lower_spec(DslIr::AddEFI(d, l, c), word_size));
    lemma_ext_cells(d, l, Felt(0));
}

#[verifier::spinoff_prover]
proof fn lemma_lower_ext_addef(d: Ext, l: Ext, r: Felt, word_size: usize, f: spec_fn(int) -> int)
    requires
        lower_ok(DslIr::AddEF(d, l, r), word_size),
    ensures
        exec_fields(f, lower_spec(DslIr::AddEF(d, l, r), word_size)) is Some,
        ext_written(
            exec_fields(f, lower_spec(DslIr::AddEF(d, l, r), word_size))->Some_0,
            f,
            dsl_ext_effect(DslIr::AddEF(d, l, r), f)->Some_0.0,
            dsl_ext_effect(DslIr::AddEF(d, l, r), f)->Some_0.1,
        ),
{
    lemma_exec_fields_4(f, lower_spec(DslIr::AddEF(d, l, r), word_size));
    lemma_ext_cells(d, l, r);
}

#[verifier::spinoff_prover]
proof fn lemma_lower_ext_addeffi(d: Ext, l: Felt, c: ExtConst, word_size: usize, f: spec_fn(int) -> int)
    requires
        lower_ok(DslIr::AddEFFI(d, l, c), word_size),
    ensures
        exec_fields(f, lower_spec(DslIr::AddEFFI(d, l, c), word_size)) is Some,
        ext_written(
            exec_fields(f, lower_spec(DslIr::AddEFFI(d, l, c), word_size))->Some_0,
            f,
            dsl_ext_effect(DslIr::AddEFFI(d, l, c), f)->Some_0.0,
            dsl_ext_effect(DslIr::AddEFFI(d, l, c), f)->Some_0.1,
        ),
{
    lemma_exec_fields_4(f, lower_spec(DslIr::AddEFFI(d, l, c), word_size));
    lemma_ext_cells(d, d, l);
}

#[verifier::spinoff_prover]
proof fn lemma_lower_ext_subef(d: Ext, l: Ext, r: Felt, word_size: usize, f: spec_fn(int) -> int)
    requires
        lower_ok(DslIr::SubEF(d, l, r), word_size),
    ensures
        exec_fields(f, lower_spec(DslIr::SubEF(d, l, r), word_size)) is Some,
        ext_written(
            exec_fields(f, lower_spec(DslIr::SubEF(d, l, r), word_size))->Some_0,
            f,
            dsl_ext_effect(DslIr::SubEF(d, l, r), f)->Some_0.0,
            dsl_ext_effect(DslIr::SubEF(d, l, r), f)->Some_0.1,
        ),
{
    lemma_exec_fields_4(f, lower_spec(DslIr::SubEF(d, l, r), word_size));
    lemma_ext_cells(d, l, r);
}

#[verifier::spinoff_prover]
proof fn lemma_lower_ext_subefi(d: Ext, l: Ext, c: BabyBear, word_size: usize, f: spec_fn(int) -> int)
    requires
        lower_ok(DslIr::SubEFI(d, l, c), word_size),
    ensures
        exec_fields(f, lower_spec(DslIr::SubEFI(d, l, c), word_size)) is Some,
        ext_written(
            exec_fields(f, lower_spec(DslIr::SubEFI(d, l, c), word_size))->Some_0,
            f,
            dsl_ext_effect(DslIr::SubEFI(d, l, c), f)->Some_0.0,
            dsl_ext_effect(DslIr::SubEFI(d, l, c), f)->Some_0.1,
        ),
{
    lemma_exec_fields_4(f, lower_spec(DslIr::SubEFI(d, l, c), word_size));
    lemma_ext_cells(d, l, Felt(0));
    lemma_add_neg(f(efp(l, 0) as int), c.val());
}

#[verifier::spinoff_prover]
proof fn lemma_lower_ext_subein(d: Ext, c: ExtConst, r: Ext, word_size: usize, f: spec_fn(int) -> int)
    requires
        lower_ok(DslIr::SubEIN(d, c, r), word_size),
    ensures
        exec_fields(f, lower_spec(DslIr::SubEIN(d, c, r), word_size)) is Some,
        ext_written(
            exec_fields(f, lower_spec(DslIr::SubEIN(d, c, r), word_size))->Some_0,
            f,
            dsl_ext_effect(DslIr::SubEIN(d, c, r), f)->Some_0.0,
            dsl_ext_effect(DslIr::SubEIN(d, c, r), f)->Some_0.1,
        ),
{
    lemma_exec_fields_4(f, lower_spec(DslIr::SubEIN(d, c, r), word_size));
    lemma_ext_cells(d, r, Felt(0));
}

#[verifier::spinoff_prover]
proof fn lemma_lower_ext_subei(d: Ext, l: Ext, c: ExtConst, word_size: usize, f: spec_fn(int) -> int)
    requires
        lower_ok(DslIr::SubEI(d, l, c), word_size),
    ensures
        exec_fields(f, lower_spec(DslIr::SubEI(d, l, c), word_size)) is Some,
        ext_written(
            exec_fields(f, lower_spec(DslIr::SubEI(d, l, c), word_size))->Some_0,
            f,
            dsl_ext_effect(DslIr::SubEI(d, l, c), f)->Some_0.0,
            dsl_ext_effect(DslIr::SubEI(d, l, c), f)->Some_0.1,
        ),
{
    lemma_exec_fields_4(f, lower_spec(DslIr::SubEI(d, l, c), word_size));
    lemma_ext_cells(d, l, Felt(0));
    lemma_add_neg(f(efp(l, 0) as int), c[0].val());
    lemma_add_neg(f(efp(l, 1) as int), c[1].val());
    lemma_add_neg(f(efp(l, 2) as int), c[2].val());
    lemma_add_neg(f(efp(l, 3) as int), c[3].val());
}

#[verifier::spinoff_prover]
proof fn lemma_lower_ext_mulef(d: Ext, l: Ext, r: Felt, word_size: usize, f: spec_fn(int) -> int)
    requires
        lower_ok(DslIr::MulEF(d, l, r), word_size),
    ensures
        exec_fields(f, lower_spec(DslIr::MulEF(d, l, r), word_size)) is Some,
        ext_written(
            exec_fields(f, lower_spec(DslIr::MulEF(d, l, r), word_size))->Some_0,
            f,
            dsl_ext_effect(DslIr::MulEF(d, l, r), f)->Some_0.0,
            dsl_ext_effect(DslIr::MulEF(d, l, r), f)->Some_0.1,
        ),
{
    lemma_exec_fields_4(f, lower_spec(DslIr::MulEF(d, l, r), word_size));
    lemma_ext_cells(d, l, r);
}

#[verifier::spinoff_prover]
proof fn lemma_lower_ext_mulefi(d: Ext, l: Ext, c: BabyBear, word_size: usize, f: spec_fn(int) -> int)
    requires
        lower_ok(DslIr::MulEFI(d, l, c), word_size),
    ensures
        exec_fields(f, lower_spec(DslIr::MulEFI(d, l, c), word_size)) is Some,
        ext_written(
            exec_fields(f, lower_spec(DslIr::MulEFI(d, l, c), word_size))->Some_0,
            f,
            dsl_ext_effect(DslIr::MulEFI(d, l, c), f)->Some_0.0,
            dsl_ext_effect(DslIr::MulEFI(d, l, c), f)->Some_0.1,
        ),
{
    lemma_exec_fields_4(f, lower_spec(DslIr::MulEFI(d, l, c), word_size));
    lemma_ext_cells(d, l, Felt(0));
}

#[verifier::spinoff_prover]
proof fn lemma_lower_ext_nege(d: Ext, l: Ext, word_size: usize, f: spec_fn(int) -> int)
    requires
        lower_ok(DslIr::NegE(d, l), word_size),
    ensures
        exec_fields(f, lower_spec(DslIr::NegE(d, l), word_size)) is Some,
        ext_written(
            exec_fields(f, lower_spec(DslIr::NegE(d, l), word_size))->Some_0,
            f,
            dsl_ext_effect(DslIr::NegE(d, l), f)->Some_0.0,
            dsl_ext_effect(DslIr::NegE(d, l), f)->Some_0.1,
        ),
{
    lemma_exec_fields_4(f, lower_spec(DslIr::NegE(d, l), word_size));
    lemma_ext_cells(d, l, Felt(0));
    lemma_neg_as_product(f(efp(l, 0) as int));
    lemma_neg_as_product(f(efp(l, 1) as int));
    lemma_neg_as_product(f(efp(l, 2) as int));
    lemma_neg_as_product(f(efp(l, 3) as int));
}

#[verifier::spinoff_prover]
proof fn lemma_lower_ext_divef(d: Ext, l: Ext, r: Felt, word_size: usize, f: spec_fn(int) -> int)
    requires
        lower_ok(DslIr::DivEF(d, l, r), word_size),
    ensures
        exec_fields(f, lower_spec(DslIr::DivEF(d, l, r), word_size)) is Some,
        ext_written(
            exec_fields(f, lower_spec(DslIr::DivEF(d, l, r), word_size))->Some_0,
            f,
            dsl_ext_effect(DslIr::DivEF(d, l, r), f)->Some_0.0,
            dsl_ext_effect(DslIr::DivEF(d, l, r), f)->Some_0.1,
        ),
{
    lemma_exec_fields_4(f, lower_spec(DslIr::DivEF(d, l, r), word_size));
    lemma_ext_cells(d, l, r);
}

/// Lowering an extension-field DSL instruction gives code that, run on a frame, sets the four
/// cells of the destination to the values the instruction denotes, and leaves every other cell
/// unchanged (also when the destination is an operand).
pub proof fn lemma_lower_ext_op(op: DslIr, word_size: usize, f: spec_fn(int) -> int)
    requires
        dsl_ext_effect(op, f) is Some,
        lower_ok(op, word_size),
    ensures
        exec_fields(f, lower_spec(op, word_size)) is Some,
        ext_written(
            exec_fields(f, lower_spec(op, word_size))->Some_0,
            f,
            dsl_ext_effect(op, f)->Some_0.0,
            dsl_ext_effect(op, f)->Some_0.1,
        ),
{
    match op {
        DslIr::AddE(d, l, r) => lemma_exec_fields_single(f, lower_spec(op, word_size)[0]),
        DslIr::SubE(d, l, r) => lemma_exec_fields_single(f, lower_spec(op, word_size)[0]),
        DslIr::MulE(d, l, r) => lemma_exec_fields_single(f, lower_spec(op, word_size)[0]),
        DslIr::DivE(d, l, r) => lemma_exec_fields_single(f, lower_spec(op, word_size)[0]),
        DslIr::ImmE(d, c) => lemma_lower_ext_imme(d, c, word_size, f),
        DslIr::AddEI(d, l, c) => lemma_lower_ext_addei(d, l, c, word_size, f),
        DslIr::AddEFI(d, l, c) => lemma_lower_ext_addefi(d, l, c, word_size, f),
        DslIr::AddEF(d, l, r) => lemma_lower_ext_addef(d, l, r, word_size, f),
        DslIr::AddEFFI(d, l, c) => lemma_lower_ext_addeffi(d, l, c, word_size, f),
        DslIr::SubEF(d, l, r) => lemma_lower_ext_subef(d, l, r, word_size, f),
        DslIr::SubEFI(d, l, c) => lemma_lower_ext_subefi(d, l, c, word_size, f),
        DslIr::SubEIN(d, c, r) => lemma_lower_ext_subein(d, c, r, word_size, f),
        DslIr::SubEI(d, l, c) => lemma_lower_ext_subei(d, l, c, word_size, f),
        DslIr::MulEF(d, l, r) => lemma_lower_ext_mulef(d, l, r, word_size, f),
        DslIr::MulEFI(d, l, c) => lemma_lower_ext_mulefi(d, l, c, word_size, f),
        DslIr::NegE(d, l) => lemma_lower_ext_nege(d, l, word_size, f),
        DslIr::DivEF(d, l, r) => lemma_lower_ext_divef(d, l, r, word_size, f),
        _ => {},
    }
}

/// Adding the negation subtracts.
proof fn lemma_add_neg(a: int, c: int)
    ensures
        modp(a + modp(-c)) == modp(a - c),
        0 <= modp(-c) < BABY_BEAR_P,
{
    crate::field::lemma_modp_basics(-c);
    crate::field::lemma_eqm_add(a, a, modp(-c), -c);
}

/// The heap address a memory index denotes on a frame: the pointer plus `index * size + offset`.
pub open spec fn mem_address(f: spec_fn(int) -> int, ptr: Ptr, index: MemIndex) -> int {
    let iv = match index.index {
        RVar::Const(c) => c.val(),
        RVar::Val(x) => f(vfp(x) as int),
    };
    modp(f(pfp(ptr) as int) + iv * index.size + index.offset)
}

/// A single-word load or store through a memory index, run on a frame: a load puts in `reg` the
/// heap cell at the address the index denotes, a store puts the value of `reg` in that heap
/// cell; no other cell changes but the utility register, which a variable index uses.
pub proof fn lemma_mem_word(is_load: bool, reg: i32, ptr: Ptr, index: MemIndex, f: spec_fn(int) -> int)
    requires
        pok(ptr),
        mem_index_ok(index),
        reg != A0,
        is_load ==> mem_address(f, ptr, index) != A0 as int,
    ensures
        exec_fields(f, mem_word_spec(is_load, reg, ptr, index)) is Some,
        ({
            let g = exec_fields(f, mem_word_spec(is_load, reg, ptr, index))->Some_0;
            let a = mem_address(f, ptr, index);
            &&& is_load ==> g(reg as int) == modp(f(a))
            &&& !is_load ==> g(a) == modp(f(reg as int))
            &&& forall|x: int|
                x != A0 as int && x != (if is_load { reg as int } else { a }) ==> #[trigger] g(x) == f(x)
        }),
{
    let pp = pfp(ptr) as int;
    lemma_frame_slots_disjoint(ptr.address.0, ptr.address.0, 0, 0, 0, 0, 0, 0);
    assert(pp != A0 as int);
    let s = mem_word_spec(is_load, reg, ptr, index);
    let off = BabyBear { v: index.offset as u32 };
    let sz = BabyBear { v: index.size as u32 };
    match index.index {
        RVar::Const(c) => {
            assert(s.len() == 1);
            assert(s =~= seq![s[0]]);
            lemma_exec_fields_single(f, s[0]);
            assert(c.val() * sz.val() + off.val() == c.val() * index.size + index.offset);
        },
        RVar::Val(x) => {
            let xp = vfp(x) as int;
            lemma_frame_slots_disjoint(x.0, x.0, 0, 0, 0, 0, 0, 0);
            assert(xp != A0 as int);
            let iv = f(xp);
            let a = mem_address(f, ptr, index);
            if index.size == 1 {
                let g1 = frame_set(f, A0 as int, modp(f(pp) + f(xp)));
                assert(s.len() == 2);
                assert(exec_field(f, s[0]) == Some(g1));
                assert(s.drop_first() =~= seq![s[1]]);
                lemma_exec_fields_single(g1, s[1]);
                assert(iv * 1 == iv);
                crate::field::lemma_modp_basics(f(pp) + iv);
                crate::field::lemma_eqm_add(modp(f(pp) + iv), f(pp) + iv, 0 * 0 + off.val(), index.offset as int);
                assert(modp(g1(A0 as int) + 0 * 0 + off.val()) == a);
            } else {
                let g1 = frame_set(f, A0 as int, modp(f(xp) * sz.val()));
                let g2 = frame_set(g1, A0 as int, modp(g1(A0 as int) + g1(pp)));
                assert(s.len() == 3);
                assert(exec_field(f, s[0]) == Some(g1));
                assert(exec_field(g1, s[1]) == Some(g2));
                let s1 = s.drop_first();
                assert(s1.drop_first() =~= seq![s[2]]);
                lemma_exec_fields_single(g2, s[2]);
                assert(exec_fields(g1, s1) == exec_fields(g2, s1.drop_first()));
                crate::field::lemma_modp_basics(iv * index.size);
                crate::field::lemma_modp_basics(modp(iv * index.size) + f(pp));
                crate::field::lemma_eqm_add(modp(iv * index.size), iv * index.size, f(pp), f(pp));
                crate::field::lemma_eqm_add(
                    modp(modp(iv * index.size) + f(pp)),
                    iv * index.size + f(pp),
                    0 * 0 + off.val(),
                    index.offset as int,
                );
                assert(modp(g2(A0 as int) + 0 * 0 + off.val()) == a);
            }
        },
    }
}

/// The register and memory index of a single-word DSL load or store.
pub open spec fn mem_op_parts(op: DslIr) -> Option<(bool, i32, Ptr, MemIndex)> {
    match op {
        DslIr::LoadV(v, p, i) => Some((true, vfp(v), p, i)),
        DslIr::LoadF(v, p, i) => Some((true, ffp(v), p, i)),
        DslIr::StoreV(v, p, i) => Some((false, vfp(v), p, i)),
        DslIr::StoreF(v, p, i) => Some((false, ffp(v), p, i)),
        _ => None,
    }
}

/// A lowered single-word DSL load or store, run on a frame: a load sets its variable to the heap
/// cell at the address its index denotes, a store sets that heap cell to its variable's value;
/// no other cell changes but the utility register.
pub proof fn lemma_lower_load_store(op: DslIr, word_size: usize, f: spec_fn(int) -> int)
    requires
        mem_op_parts(op) is Some,
        lower_ok(op, word_size),
        mem_op_parts(op)->Some_0.0 ==> mem_address(f, mem_op_parts(op)->Some_0.2, mem_op_parts(op)->Some_0.3)
            != A0 as int,
    ensures
        exec_fields(f, lower_spec(op, word_size)) is Some,
        ({
            let (is_load, reg, ptr, index) = mem_op_parts(op)->Some_0;
            let g = exec_fields(f, lower_spec(op, word_size))->Some_0;
            let a = mem_address(f, ptr, index);
            &&& is_load ==> g(reg as int) == modp(f(a))
            &&& !is_load ==> g(a) == modp(f(reg as int))
            &&& forall|x: int|
                x != A0 as int && x != (if is_load { reg as int } else { a }) ==> #[trigger] g(x) == f(x)
        }),
{
    let (is_load, reg, ptr, index) = mem_op_parts(op)->Some_0;
    match op {
        DslIr::LoadV(v, _, _) => {
            lemma_frame_slots_disjoint(v.0, v.0, 0, 0, 0, 0, 0, 0);
        },
        DslIr::StoreV(v, _, _) => {
            lemma_frame_slots_disjoint(v.0, v.0, 0, 0, 0, 0, 0, 0);
        },
        DslIr::LoadF(v, _, _) => {
            lemma_frame_slots_disjoint(0, 0, v.0, v.0, 0, 0, 0, 0);
            lemma_ffp_value(v);
        },
        DslIr::StoreF(v, _, _) => {
            lemma_frame_slots_disjoint(0, 0, v.0, v.0, 0, 0, 0, 0);
            lemma_ffp_value(v);
        },
        _ => {},
    }
    lemma_mem_word(is_load, reg, ptr, index, f);
}

} // verus!
