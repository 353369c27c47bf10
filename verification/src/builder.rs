//! The eDSL builder: it hands out fresh variables and records the DSL instructions of a
//! program, in order.
use crate::assembly::{efp, ffp, frame_set, lemma_frame_slots_disjoint, var_fp_spec, var_id_ok, vfp, AsmInstruction};
use crate::lowering::{dsl_base_effect, dsl_ext_effect};
use vstd::arithmetic::power2::pow2;
use crate::compiler::{build_spec, label, AsmCompiler, CompilerModel};
use crate::conversion::{convert_program, program_ok, program_spec, CompilerOptions, Instruction};
use crate::field::{modp, BabyBear, BABY_BEAR_P};
use crate::ir::{Array, DslIr, Ext, Felt, RVar, Usize, Var};
use std::rc::Rc;
use vstd::prelude::*;

verus! {

/// The flags of a builder.
#[derive(Clone, Copy, Debug, Default)]
pub struct BuilderFlags {
    pub debug: bool,
    /// Only static (circuit) instructions: no branches or loops are emitted.
    pub static_only: bool,
}

/// The builder: counters of the variables handed out so far, and the program.
pub struct Builder {
    pub var_count: u32,
    pub felt_count: u32,
    pub ext_count: u32,
    pub operations: Vec<DslIr>,
    pub flags: BuilderFlags,
}

/// The builder has `n` more variables, felts and extension elements to hand out.
pub open spec fn has_room(b: &Builder, vars: int, felts: int, exts: int) -> bool {
    &&& b.var_count + vars <= u32::MAX
    &&& b.felt_count + felts <= u32::MAX
    &&& b.ext_count + exts <= u32::MAX
}

/// `dst <- src` for variables.
pub open spec fn assign_v(dst: Var, src: Var) -> DslIr {
    DslIr::AddVI(dst, src, BabyBear { v: 0 })
}

/// `dst <- src` for felts.
pub open spec fn assign_f(dst: Felt, src: Felt) -> DslIr {
    DslIr::AddFI(dst, src, BabyBear { v: 0 })
}

/// `dst <- src` for extension elements.
pub open spec fn assign_e(dst: Ext, src: Ext) -> DslIr {
    DslIr::AddEI(dst, src, [BabyBear { v: 0 }, BabyBear { v: 0 }, BabyBear { v: 0 }, BabyBear { v: 0 }])
}

/// `2^i` as a field element.
pub open spec fn pow2_f(i: int) -> BabyBear {
    BabyBear { v: vstd::arithmetic::power2::pow2(i as nat) as u32 }
}

/// The instructions of `bits2num_v_circuit`: `result <- 0`, then for each bit
/// `t_i <- bit_i * 2^i; result <- result + t_i` with a fresh `t_i`.
pub open spec fn bits2num_ops(result: Var, bits: Seq<Var>, first_tmp: u32) -> Seq<DslIr>
    decreases bits.len(),
{
    if bits.len() == 0 {
        seq![DslIr::ImmV(result, BabyBear { v: 0 })]
    } else {
        let i = bits.len() - 1;
        let t = Var((first_tmp + i) as u32);
        bits2num_ops(result, bits.drop_last(), first_tmp) + seq![
            DslIr::MulVI(t, bits[i], pow2_f(i)),
            DslIr::AddV(result, result, t),
        ]
    }
}

/// `op` is `if cond == 1 { then } else { els }`.
pub open spec fn is_if_one(op: DslIr, cond: Var, then: Seq<DslIr>, els: Seq<DslIr>) -> bool {
    op matches DslIr::IfEqI(c, one, t, e) && c == cond && one.v == 1 && t@ == then && e@ == els
}

/// `op` is `for lv in start..end step 1 { body }`.
pub open spec fn is_for(op: DslIr, start: RVar, end: RVar, lv: Var, body: Seq<DslIr>) -> bool {
    op matches DslIr::For(s, e, step, v, b) && s == start && e == end && step.v == 1 && v == lv
        && b@ == body
}

/// `ops` is `prev` followed by one instruction.
pub open spec fn appended_one(ops: Seq<DslIr>, prev: Seq<DslIr>) -> bool {
    ops.len() == prev.len() + 1 && ops.drop_last() == prev
}

/// A program of one instruction.
fn single(op: DslIr) -> (r: Vec<DslIr>)
    ensures
        r@ == seq![op],
{
    let mut v: Vec<DslIr> = Vec::new();
    v.push(op);
    v
}

impl Builder {
    /// An empty builder.
    pub fn new(flags: BuilderFlags) -> (r: Self)
        ensures
            r.var_count == 0 && r.felt_count == 0 && r.ext_count == 0,
            r.operations@.len() == 0,
            r.flags == flags,
    {
        Builder { var_count: 0, felt_count: 0, ext_count: 0, operations: Vec::new(), flags }
    }

    /// Appends an instruction.
    pub fn push(&mut self, op: DslIr)
        ensures
            final(self).operations@ == old(self).operations@.push(op),
            final(self).var_count == old(self).var_count,
            final(self).felt_count == old(self).felt_count,
            final(self).ext_count == old(self).ext_count,
            final(self).flags == old(self).flags,
    {
        self.operations.push(op);
    }

    /// A fresh variable.
    pub fn uninit_var(&mut self) -> (r: Var)
        requires
            old(self).var_count < u32::MAX,
        ensures
            r == Var(old(self).var_count),
            final(self).var_count == old(self).var_count + 1,
            final(self).felt_count == old(self).felt_count,
            final(self).ext_count == old(self).ext_count,
            final(self).operations@ == old(self).operations@,
            final(self).flags == old(self).flags,
    {
        let r = Var(self.var_count);
        self.var_count = self.var_count + 1;
        r
    }

    /// A fresh felt.
    pub fn uninit_felt(&mut self) -> (r: Felt)
        requires
            old(self).felt_count < u32::MAX,
        ensures
            r == Felt(old(self).felt_count),
            final(self).felt_count == old(self).felt_count + 1,
            final(self).var_count == old(self).var_count,
            final(self).ext_count == old(self).ext_count,
            final(self).operations@ == old(self).operations@,
            final(self).flags == old(self).flags,
    {
        let r = Felt(self.felt_count);
        self.felt_count = self.felt_count + 1;
        r
    }

    /// A fresh extension element.
    pub fn uninit_ext(&mut self) -> (r: Ext)
        requires
            old(self).ext_count < u32::MAX,
        ensures
            r == Ext(old(self).ext_count),
            final(self).ext_count == old(self).ext_count + 1,
            final(self).var_count == old(self).var_count,
            final(self).felt_count == old(self).felt_count,
            final(self).operations@ == old(self).operations@,
            final(self).flags == old(self).flags,
    {
        let r = Ext(self.ext_count);
        self.ext_count = self.ext_count + 1;
        r
    }

    /// The generator `31` of the multiplicative group, in a fresh felt.
    pub fn generator(&mut self) -> (r: Felt)
        requires
            old(self).felt_count < u32::MAX,
        ensures
            r == Felt(old(self).felt_count),
            final(self).operations@ == old(self).operations@.push(
                DslIr::ImmF(r, BabyBear { v: 31 }),
            ),
            final(self).felt_count == old(self).felt_count + 1,
            final(self).var_count == old(self).var_count,
            final(self).ext_count == old(self).ext_count,
    {
        let f = self.uninit_felt();
        self.push(DslIr::ImmF(f, BabyBear::from_canonical_u32(31)));
        f
    }

    /// `cond == 1 ? a : b` in a fresh variable: a select instruction in static mode, a
    /// conditional otherwise.
    pub fn select_v(&mut self, cond: Var, a: Var, b: Var) -> (r: Var)
        requires
            old(self).var_count < u32::MAX,
        ensures
            r == Var(old(self).var_count),
            final(self).var_count == old(self).var_count + 1,
            final(self).felt_count == old(self).felt_count,
            final(self).ext_count == old(self).ext_count,
            old(self).flags.static_only ==> final(self).operations@ == old(self).operations@.push(
                DslIr::CircuitSelectV(cond, a, b, r),
            ),
            !old(self).flags.static_only ==> appended_one(
                final(self).operations@,
                old(self).operations@,
            ) && is_if_one(
                final(self).operations@.last(),
                cond,
                seq![assign_v(r, a)],
                seq![assign_v(r, b)],
            ),
    {
        let c = self.uninit_var();
        if self.flags.static_only {
            self.push(DslIr::CircuitSelectV(cond, a, b, c));
        } else {
            let then_ops = single(DslIr::AddVI(c, a, BabyBear::zero()));
            let else_ops = single(DslIr::AddVI(c, b, BabyBear::zero()));
            self.push(DslIr::IfEqI(cond, BabyBear::one(), then_ops, else_ops));
            assert(self.operations@.drop_last() =~= old(self).operations@);
        }
        c
    }

    /// `cond == 1 ? a : b` in a fresh felt.
    pub fn select_f(&mut self, cond: Var, a: Felt, b: Felt) -> (r: Felt)
        requires
            old(self).felt_count < u32::MAX,
        ensures
            r == Felt(old(self).felt_count),
            final(self).felt_count == old(self).felt_count + 1,
            final(self).var_count == old(self).var_count,
            final(self).ext_count == old(self).ext_count,
            old(self).flags.static_only ==> final(self).operations@ == old(self).operations@.push(
                DslIr::CircuitSelectF(cond, a, b, r),
            ),
            !old(self).flags.static_only ==> appended_one(
                final(self).operations@,
                old(self).operations@,
            ) && is_if_one(
                final(self).operations@.last(),
                cond,
                seq![assign_f(r, a)],
                seq![assign_f(r, b)],
            ),
    {
        let c = self.uninit_felt();
        if self.flags.static_only {
            self.push(DslIr::CircuitSelectF(cond, a, b, c));
        } else {
            let then_ops = single(DslIr::AddFI(c, a, BabyBear::zero()));
            let else_ops = single(DslIr::AddFI(c, b, BabyBear::zero()));
            self.push(DslIr::IfEqI(cond, BabyBear::one(), then_ops, else_ops));
            assert(self.operations@.drop_last() =~= old(self).operations@);
        }
        c
    }

    /// `cond == 1 ? a : b` in a fresh extension element.
    pub fn select_ef(&mut self, cond: Var, a: Ext, b: Ext) -> (r: Ext)
        requires
            old(self).ext_count < u32::MAX,
        ensures
            r == Ext(old(self).ext_count),
            final(self).ext_count == old(self).ext_count + 1,
            final(self).var_count == old(self).var_count,
            final(self).felt_count == old(self).felt_count,
            old(self).flags.static_only ==> final(self).operations@ == old(self).operations@.push(
                DslIr::CircuitSelectE(cond, a, b, r),
            ),
            !old(self).flags.static_only ==> appended_one(
                final(self).operations@,
                old(self).operations@,
            ) && is_if_one(
                final(self).operations@.last(),
                cond,
                seq![assign_e(r, a)],
                seq![assign_e(r, b)],
            ),
    {
        let c = self.uninit_ext();
        let z = BabyBear::zero();
        if self.flags.static_only {
            self.push(DslIr::CircuitSelectE(cond, a, b, c));
        } else {
            let then_ops = single(DslIr::AddEI(c, a, [z, z, z, z]));
            let else_ops = single(DslIr::AddEI(c, b, [z, z, z, z]));
            self.push(DslIr::IfEqI(cond, BabyBear::one(), then_ops, else_ops));
            assert(self.operations@.drop_last() =~= old(self).operations@);
        }
        c
    }

    /// `base^(2^power_log)` in a fresh variable: it is squared `power_log` times in a loop.
    pub fn exp_power_of_2_v(&mut self, base: Var, power_log: RVar) -> (r: Var)
        requires
            old(self).var_count + 2 <= u32::MAX,
        ensures
            r == Var(old(self).var_count),
            final(self).var_count == old(self).var_count + 2,
            final(self).felt_count == old(self).felt_count,
            final(self).ext_count == old(self).ext_count,
            final(self).operations@.len() == old(self).operations@.len() + 2,
            final(self).operations@.take(old(self).operations@.len() as int) == old(self).operations@,
            final(self).operations@[old(self).operations@.len() as int] == assign_v(r, base),
            is_for(
                final(self).operations@.last(),
                RVar::Const(BabyBear { v: 0 }),
                power_log,
                Var((old(self).var_count + 1) as u32),
                seq![DslIr::MulV(r, r, r)],
            ),
    {
        let result = self.uninit_var();
        self.push(DslIr::AddVI(result, base, BabyBear::zero()));
        let loop_var = self.uninit_var();
        let body = single(DslIr::MulV(result, result, result));
        self.push(DslIr::For(RVar::zero(), power_log, BabyBear::one(), loop_var, body));
        assert(self.operations@.take(old(self).operations@.len() as int) =~= old(self).operations@);
        result
    }

    /// `base * 2^shift` in a fresh variable: it is doubled `shift` times in a loop.
    pub fn sll(&mut self, base: Var, shift: RVar) -> (r: Var)
        requires
            old(self).var_count + 2 <= u32::MAX,
        ensures
            r == Var(old(self).var_count),
            final(self).var_count == old(self).var_count + 2,
            final(self).felt_count == old(self).felt_count,
            final(self).ext_count == old(self).ext_count,
            final(self).operations@.len() == old(self).operations@.len() + 2,
            final(self).operations@.take(old(self).operations@.len() as int) == old(self).operations@,
            final(self).operations@[old(self).operations@.len() as int] == assign_v(r, base),
            is_for(
                final(self).operations@.last(),
                RVar::Const(BabyBear { v: 0 }),
                shift,
                Var((old(self).var_count + 1) as u32),
                seq![DslIr::AddV(r, r, r)],
            ),
    {
        let result = self.uninit_var();
        self.push(DslIr::AddVI(result, base, BabyBear::zero()));
        let loop_var = self.uninit_var();
        let body = single(DslIr::AddV(result, result, result));
        self.push(DslIr::For(RVar::zero(), shift, BabyBear::one(), loop_var, body));
        assert(self.operations@.take(old(self).operations@.len() as int) =~= old(self).operations@);
        result
    }

    /// The number with the given little-endian bits, in a fresh variable.
    pub fn bits2num_v_circuit(&mut self, bits: &[Var]) -> (r: Var)
        requires
            bits@.len() <= 31,
            old(self).var_count + 1 + bits@.len() <= u32::MAX,
        ensures
            r == Var(old(self).var_count),
            final(self).var_count == old(self).var_count + 1 + bits@.len(),
            final(self).felt_count == old(self).felt_count,
            final(self).ext_count == old(self).ext_count,
            final(self).operations@ == old(self).operations@ + bits2num_ops(
                r,
                bits@,
                (old(self).var_count + 1) as u32,
            ),
    {
        let result = self.uninit_var();
        self.push(DslIr::ImmV(result, BabyBear::zero()));
        let ghost first_tmp = (old(self).var_count + 1) as u32;
        let mut i: usize = 0;
        proof {
            vstd::arithmetic::power2::lemma2_to64();
            assert(bits@.take(0).len() == 0);
            assert(self.operations@ =~= old(self).operations@ + bits2num_ops(result, bits@.take(0), first_tmp));
        }
        while i < bits.len()
            invariant
                i <= bits@.len(),
                bits@.len() <= 31,
                result == Var(old(self).var_count),
                first_tmp == old(self).var_count + 1,
                old(self).var_count + 1 + bits@.len() <= u32::MAX,
                self.var_count == old(self).var_count + 1 + i,
                self.felt_count == old(self).felt_count,
                self.ext_count == old(self).ext_count,
                self.operations@ == old(self).operations@ + bits2num_ops(result, bits@.take(i as int), first_tmp),
            decreases bits@.len() - i,
        {
            let ii: u32 = i as u32;
            proof {
                vstd::bits::lemma_u32_pow2_no_overflow(ii as nat);
                vstd::bits::lemma_u32_shl_is_mul(1, ii);
                vstd::arithmetic::power2::lemma2_to64();
                if ii < 30 {
                    vstd::arithmetic::power2::lemma_pow2_strictly_increases(ii as nat, 30);
                }
            }
            let c = BabyBear::from_canonical_u32(1u32 << ii);
            let t = self.uninit_var();
            self.push(DslIr::MulVI(t, bits[i], c));
            self.push(DslIr::AddV(result, result, t));
            proof {
                let b = bits@.take(i + 1);
                assert(b.drop_last() =~= bits@.take(i as int));
                assert(self.operations@ =~= old(self).operations@ + bits2num_ops(result, b, first_tmp));
            }
            i = i + 1;
        }
        assert(bits@.take(i as int) =~= bits@);
        result
    }

    /// Thirty-two fresh variables for the bits of `num`, filled by a circuit instruction.
    pub fn num2bits_f_circuit(&mut self, num: Felt) -> (r: Vec<Var>)
        requires
            old(self).var_count + 32 <= u32::MAX,
        ensures
            r@ == Seq::new(32, |i: int| Var((old(self).var_count + i) as u32)),
            final(self).var_count == old(self).var_count + 32,
            final(self).felt_count == old(self).felt_count,
            final(self).ext_count == old(self).ext_count,
            appended_one(final(self).operations@, old(self).operations@),
            final(self).operations@.last() matches DslIr::CircuitNum2BitsF(n, o) && n == num && o@
                == r@,
    {
        let mut output: Vec<Var> = Vec::new();
        let mut copy: Vec<Var> = Vec::new();
        let mut i: usize = 0;
        while i < 32
            invariant
                i <= 32,
                old(self).var_count + 32 <= u32::MAX,
                self.var_count == old(self).var_count + i,
                self.felt_count == old(self).felt_count,
                self.ext_count == old(self).ext_count,
                self.operations@ == old(self).operations@,
                output@ == Seq::new(i as nat, |j: int| Var((old(self).var_count + j) as u32)),
                copy@ == output@,
            decreases 32 - i,
        {
            let v = self.uninit_var();
            output.push(v);
            copy.push(v);
            i = i + 1;
        }
        self.push(DslIr::CircuitNum2BitsF(num, copy));
        assert(self.operations@.drop_last() =~= old(self).operations@);
        output
    }

    /// Four fresh felts for the 16-bit limbs of `value`, filled by a circuit instruction.
    pub fn var_to_64bits_f_circuit(&mut self, value: Var) -> (r: [Felt; 4])
        requires
            old(self).felt_count + 4 <= u32::MAX,
        ensures
            r[0] == Felt(old(self).felt_count) && r[1] == Felt((old(self).felt_count + 1) as u32)
                && r[2] == Felt((old(self).felt_count + 2) as u32) && r[3] == Felt(
                (old(self).felt_count + 3) as u32,
            ),
            final(self).felt_count == old(self).felt_count + 4,
            final(self).var_count == old(self).var_count,
            final(self).ext_count == old(self).ext_count,
            final(self).operations@ == old(self).operations@.push(DslIr::CircuitVarTo64BitsF(value, r)),
    {
        let a = self.uninit_felt();
        let b = self.uninit_felt();
        let c = self.uninit_felt();
        let d = self.uninit_felt();
        let ret = [a, b, c, d];
        self.push(DslIr::CircuitVarTo64BitsF(value, ret));
        ret
    }

    /// A fresh extension element with the four given felts as coordinates.
    pub fn felts2ext(&mut self, felts: &[Felt]) -> (r: Ext)
        requires
            felts@.len() == 4,
            old(self).ext_count < u32::MAX,
        ensures
            r == Ext(old(self).ext_count),
            final(self).ext_count == old(self).ext_count + 1,
            final(self).var_count == old(self).var_count,
            final(self).felt_count == old(self).felt_count,
            final(self).operations@ == old(self).operations@.push(
                DslIr::CircuitFelts2Ext([felts@[0], felts@[1], felts@[2], felts@[3]], r),
            ),
    {
        let out = self.uninit_ext();
        self.push(DslIr::CircuitFelts2Ext([felts[0], felts[1], felts[2], felts[3]], out));
        out
    }

    /// Four fresh felts holding the coordinates of `value`.
    pub fn ext2felt_circuit(&mut self, value: Ext) -> (r: [Felt; 4])
        requires
            old(self).felt_count + 4 <= u32::MAX,
        ensures
            r[0] == Felt(old(self).felt_count) && r[1] == Felt((old(self).felt_count + 1) as u32)
                && r[2] == Felt((old(self).felt_count + 2) as u32) && r[3] == Felt(
                (old(self).felt_count + 3) as u32,
            ),
            final(self).felt_count == old(self).felt_count + 4,
            final(self).var_count == old(self).var_count,
            final(self).ext_count == old(self).ext_count,
            final(self).operations@ == old(self).operations@.push(DslIr::CircuitExt2Felt(r, value)),
    {
        let a = self.uninit_felt();
        let b = self.uninit_felt();
        let c = self.uninit_felt();
        let d = self.uninit_felt();
        let ret = [a, b, c, d];
        self.push(DslIr::CircuitExt2Felt(ret, value));
        ret
    }

    /// Reduces a felt in the circuit.
    pub fn felt_reduce_circuit(&mut self, value: Felt)
        ensures
            final(self).operations@ == old(self).operations@.push(DslIr::CircuitFeltReduce(value)),
            final(self).var_count == old(self).var_count,
            final(self).felt_count == old(self).felt_count,
            final(self).ext_count == old(self).ext_count,
    {
        self.push(DslIr::CircuitFeltReduce(value));
    }

    /// Reduces an extension element in the circuit.
    pub fn ext_reduce_circuit(&mut self, value: Ext)
        ensures
            final(self).operations@ == old(self).operations@.push(DslIr::CircuitExtReduce(value)),
            final(self).var_count == old(self).var_count,
            final(self).felt_count == old(self).felt_count,
            final(self).ext_count == old(self).ext_count,
    {
        self.push(DslIr::CircuitExtReduce(value));
    }

    /// A fixed array holding the given values.
    pub fn vec<T: Copy>(&mut self, v: Vec<T>) -> (r: Array<T>)
        ensures
            r is Fixed,
            r->Fixed_0@.len() == v@.len(),
            forall|i: int| 0 <= i < v@.len() ==> #[trigger] r->Fixed_0@[i] == Some(v@[i]),
            *final(self) == *old(self),
    {
        let mut items: Vec<Option<T>> = Vec::new();
        let mut i: usize = 0;
        while i < v.len()
            invariant
                i <= v@.len(),
                items@.len() == i,
                forall|k: int| 0 <= k < i ==> #[trigger] items@[k] == Some(v@[k]),
            decreases v@.len() - i,
        {
            items.push(Some(v[i]));
            i = i + 1;
        }
        Array::Fixed(Rc::new(items))
    }

    /// A fixed array of `len` unset entries.
    pub fn uninit_fixed_array<T>(&mut self, len: usize) -> (r: Array<T>)
        ensures
            r is Fixed,
            r->Fixed_0@.len() == len,
            forall|i: int| 0 <= i < len ==> #[trigger] r->Fixed_0@[i] is None,
            *final(self) == *old(self),
    {
        let mut items: Vec<Option<T>> = Vec::new();
        let mut i: usize = 0;
        while i < len
            invariant
                i <= len,
                items@.len() == i,
                forall|k: int| 0 <= k < i ==> #[trigger] items@[k] is None,
            decreases len - i,
        {
            items.push(None);
            i = i + 1;
        }
        Array::Fixed(Rc::new(items))
    }

    /// Permutes a heap array of felts in place with Poseidon2.  A fixed array has no memory to
    /// permute and is not accepted.
    pub fn poseidon2_permute_mut(&mut self, array: &Array<Felt>)
        requires
            *array is Dyn,
        ensures
            final(self).operations@ == old(self).operations@.push(
                DslIr::Poseidon2PermuteBabyBear(*array, *array),
            ),
            final(self).var_count == old(self).var_count,
            final(self).felt_count == old(self).felt_count,
            final(self).ext_count == old(self).ext_count,
            final(self).flags == old(self).flags,
    {
        self.push(DslIr::Poseidon2PermuteBabyBear(array.clone(), array.clone()));
    }

    /// Writes the Poseidon2 compression of `left` and `right` into `result`.
    pub fn poseidon2_compress_x(
        &mut self,
        result: &Array<Felt>,
        left: &Array<Felt>,
        right: &Array<Felt>,
    )
        ensures
            final(self).operations@ == old(self).operations@.push(
                DslIr::Poseidon2CompressBabyBear(*result, *left, *right),
            ),
            final(self).var_count == old(self).var_count,
            final(self).felt_count == old(self).felt_count,
            final(self).ext_count == old(self).ext_count,
            final(self).flags == old(self).flags,
    {
        self.push(DslIr::Poseidon2CompressBabyBear(result.clone(), left.clone(), right.clone()));
    }

    /// The reduced opening of one matrix at `alpha`, into a fresh extension element.
    pub fn fri_single_reduced_opening_eval(
        &mut self,
        alpha: Ext,
        hint_id: Var,
        is_init: Var,
        at_x_array: &Array<Felt>,
        at_z_array: &Array<Ext>,
    ) -> (r: Ext)
        requires
            old(self).ext_count < u32::MAX,
        ensures
            r == Ext(old(self).ext_count),
            final(self).operations@ == old(self).operations@.push(
                DslIr::FriReducedOpening(alpha, hint_id, is_init, *at_x_array, *at_z_array, r),
            ),
            final(self).ext_count == old(self).ext_count + 1,
            final(self).var_count == old(self).var_count,
            final(self).felt_count == old(self).felt_count,
            final(self).flags == old(self).flags,
    {
        let result = self.uninit_ext();
        self.push(
            DslIr::FriReducedOpening(
                alpha,
                hint_id,
                is_init,
                at_x_array.clone(),
                at_z_array.clone(),
                result,
            ),
        );
        result
    }

    /// Verifies a batch opening of felt matrices against `commit`.
    pub fn verify_batch_felt(
        &mut self,
        dimensions: &Array<Usize>,
        opened_values: &Array<Array<Felt>>,
        proof_id: Var,
        index_bits: &Array<Var>,
        commit: &Array<Felt>,
    )
        ensures
            final(self).operations@ == old(self).operations@.push(
                DslIr::VerifyBatchFelt(*dimensions, *opened_values, proof_id, *index_bits, *commit),
            ),
            final(self).var_count == old(self).var_count,
            final(self).felt_count == old(self).felt_count,
            final(self).ext_count == old(self).ext_count,
            final(self).flags == old(self).flags,
    {
        self.push(
            DslIr::VerifyBatchFelt(
                dimensions.clone(),
                opened_values.clone(),
                proof_id,
                index_bits.clone(),
                commit.clone(),
            ),
        );
    }

    /// Verifies a batch opening of extension-element matrices against `commit`.
    pub fn verify_batch_ext(
        &mut self,
        dimensions: &Array<Usize>,
        opened_values: &Array<Array<Ext>>,
        proof_id: Var,
        index_bits: &Array<Var>,
        commit: &Array<Felt>,
    )
        ensures
            final(self).operations@ == old(self).operations@.push(
                DslIr::VerifyBatchExt(*dimensions, *opened_values, proof_id, *index_bits, *commit),
            ),
            final(self).var_count == old(self).var_count,
            final(self).felt_count == old(self).felt_count,
            final(self).ext_count == old(self).ext_count,
            final(self).flags == old(self).flags,
    {
        self.push(
            DslIr::VerifyBatchExt(
                dimensions.clone(),
                opened_values.clone(),
                proof_id,
                index_bits.clone(),
                commit.clone(),
            ),
        );
    }
}

/// The state of a fresh compiler: one empty block, no loop open, the trap at label 1.
pub open spec fn fresh_compiler(word_size: usize) -> CompilerModel {
    CompilerModel {
        blocks: seq![Seq::empty()],
        break_label: None,
        break_counter: 0,
        contains_break: Seq::empty(),
        trap_label: label(1),
        word_size,
    }
}

/// The blocks a program of DSL instructions compiles to.
pub open spec fn compiled_blocks(ops: Seq<DslIr>, word_size: usize) -> Seq<Seq<AsmInstruction>> {
    build_spec(fresh_compiler(word_size), ops)->Some_0.blocks
}

impl Builder {
    /// Compiles the program to VM instructions: to assembly with a fresh compiler, then each
    /// instruction converted with the labels resolved.
    pub fn compile_isa_with_options(self, options: CompilerOptions) -> (r: Vec<Instruction>)
        requires
            build_spec(fresh_compiler(options.word_size), self.operations@) is Some,
            program_ok(compiled_blocks(self.operations@, options.word_size), options),
        ensures
            r@ == program_spec(compiled_blocks(self.operations@, options.word_size), options),
    {
        let mut compiler = AsmCompiler::new(options.word_size);
        compiler.build(self.operations);
        let code = compiler.code();
        convert_program(code, options)
    }

    /// Compiles the program with the default options.
    pub fn compile_isa(self) -> (r: Vec<Instruction>)
        requires
            build_spec(fresh_compiler(8), self.operations@) is Some,
            program_ok(
                compiled_blocks(self.operations@, 8),
                CompilerOptions { word_size: 8, enable_cycle_tracker: false },
            ),
        ensures
            r@ == program_spec(
                compiled_blocks(self.operations@, 8),
                CompilerOptions { word_size: 8, enable_cycle_tracker: false },
            ),
    {
        self.compile_isa_with_options(CompilerOptions::default())
    }
}

/// Runs straight-line base-field DSL instructions on a frame, each setting its destination cell
/// to the value it denotes (`None` when one is not such an instruction).
pub open spec fn dsl_exec(f: spec_fn(int) -> int, ops: Seq<DslIr>) -> Option<spec_fn(int) -> int>
    decreases ops.len(),
{
    if ops.len() == 0 {
        Some(f)
    } else {
        match dsl_exec(f, ops.drop_last()) {
            Some(g) => match dsl_base_effect(ops.last(), g) {
                Some(e) => Some(frame_set(g, e.0, e.1)),
                None => None,
            },
            None => None,
        }
    }
}

/// The number whose little-endian bits are the values of the first `k` bit variables:
/// the sum of `bit_i * 2^i`.
pub open spec fn bits_value(f: spec_fn(int) -> int, bits: Seq<Var>, k: nat) -> int
    decreases k,
{
    if k == 0 {
        0
    } else {
        bits_value(f, bits, (k - 1) as nat) + f(vfp(bits[k - 1]) as int) * pow2((k - 1) as nat) as int
    }
}

/// A smaller variable id is representable when a larger one is.
proof fn lemma_var_id_ok_mono(a: u32, b: u32)
    requires
        a <= b,
        var_id_ok(b),
    ensures
        var_id_ok(a),
{
    assert(a / 2 <= b / 2) by {
        vstd::arithmetic::div_mod::lemma_div_is_ordered(a as int, b as int, 2);
    }
}

/// Distinct representable variables have distinct frame positions.
proof fn lemma_vfp_injective(a: u32, b: u32)
    requires
        var_id_ok(a),
        var_id_ok(b),
        a != b,
    ensures
        vfp(Var(a)) != vfp(Var(b)),
{
    lemma_frame_slots_disjoint(a, b, 0, 0, 0, 0, 0, 0);
    lemma_vfp_value(a);
    lemma_vfp_value(b);
}

/// The frame position of a representable variable is its slot.
proof fn lemma_vfp_value(a: u32)
    requires
        var_id_ok(a),
    ensures
        vfp(Var(a)) as int == var_fp_spec(a),
{
    assert(0 <= a / 2);
    assert(-0x8000_0000 <= var_fp_spec(a) <= 0x7fff_ffff);
}

/// Composing bits into a number: running the instructions that `bits2num_v_circuit` emits, the
/// bits being variables allocated before the result and the temporaries after it, leaves in the result the number whose
/// little-endian bits are the bits' values (modulo `p`), and changes no cell but the result's and
/// the temporaries'.
pub proof fn lemma_bits2num_value(f: spec_fn(int) -> int, result: Var, bits: Seq<Var>, first_tmp: u32)
    requires
        bits.len() <= 31,
        first_tmp + bits.len() <= u32::MAX,
        var_id_ok((first_tmp + bits.len()) as u32),
        forall|i: int| 0 <= i < bits.len() ==> (#[trigger] bits[i]).0 < result.0,
        result.0 < first_tmp,
    ensures
        dsl_exec(f, bits2num_ops(result, bits, first_tmp)) is Some,
        dsl_exec(f, bits2num_ops(result, bits, first_tmp))->Some_0(vfp(result) as int) == modp(
            bits_value(f, bits, bits.len()),
        ),
        forall|id: u32|
            id < result.0 ==> #[trigger] dsl_exec(f, bits2num_ops(result, bits, first_tmp))->Some_0(
                vfp(Var(id)) as int,
            ) == f(vfp(Var(id)) as int),
    decreases bits.len(),
{
    let ops = bits2num_ops(result, bits, first_tmp);
    if bits.len() == 0 {
        assert(ops.drop_last() =~= Seq::<DslIr>::empty());
        crate::field::lemma_modp_small(0);
    } else {
        let k = bits.len() - 1;
        let prev = bits.drop_last();
        assert forall|j: int| 0 <= j < prev.len() implies (#[trigger] prev[j]).0 < result.0 by {
            assert(prev[j] == bits[j]);
        }
        lemma_var_id_ok_mono((first_tmp + prev.len()) as u32, (first_tmp + bits.len()) as u32);
        lemma_var_id_ok_mono((first_tmp + k) as u32, (first_tmp + bits.len()) as u32);
        lemma_var_id_ok_mono(result.0, (first_tmp + bits.len()) as u32);
        lemma_var_id_ok_mono(bits[k].0, (first_tmp + bits.len()) as u32);
        lemma_bits2num_value(f, result, prev, first_tmp);
        let pops = bits2num_ops(result, prev, first_tmp);
        let g0 = dsl_exec(f, pops)->Some_0;
        let t = Var((first_tmp + k) as u32);
        let b = bits[k];
        let c = pow2_f(k);
        let mul = DslIr::MulVI(t, b, c);
        let add = DslIr::AddV(result, result, t);
        assert(ops == pops + seq![mul, add]);
        assert(ops.drop_last() =~= pops.push(mul));
        assert(ops.drop_last().drop_last() =~= pops);
        assert(ops.last() == add);
        assert(ops.drop_last().last() == mul);
        // the bit is still the input's
        lemma_vfp_injective(b.0, result.0);
        assert forall|j: int| 0 <= j < prev.len() implies vfp(b) as int != #[trigger] vfp(
            Var((first_tmp + j) as u32),
        ) as int by {
            lemma_var_id_ok_mono((first_tmp + j) as u32, (first_tmp + bits.len()) as u32);
            lemma_vfp_injective(b.0, (first_tmp + j) as u32);
        }
        assert(g0(vfp(b) as int) == f(vfp(b) as int));
        // 2^k as a field constant
        vstd::arithmetic::power2::lemma2_to64();
        vstd::bits::lemma_u32_pow2_no_overflow(k as nat);
        if k < 30 {
            vstd::arithmetic::power2::lemma_pow2_strictly_increases(k as nat, 30);
        }
        assert(c.val() == pow2(k as nat));
        let tv = modp(f(vfp(b) as int) * pow2(k as nat));
        let g1 = frame_set(g0, vfp(t) as int, tv);
        lemma_vfp_injective(t.0, result.0);
        assert(g1(vfp(result) as int) == g0(vfp(result) as int));
        let g2 = frame_set(g1, vfp(result) as int, modp(g1(vfp(result) as int) + g1(vfp(t) as int)));
        assert(dsl_exec(f, ops.drop_last()) == Some(g1));
        assert(dsl_exec(f, ops) == Some(g2));
        // the sum
        let bv = bits_value(f, bits, k as nat);
        assert(bits_value(f, prev, k as nat) == bv) by {
            lemma_bits_value_prefix(f, bits, prev, k as nat);
        }
        crate::field::lemma_modp_basics(bv);
        crate::field::lemma_modp_basics(f(vfp(b) as int) * pow2(k as nat));
        crate::field::lemma_eqm_add(
            modp(bv),
            bv,
            tv,
            f(vfp(b) as int) * pow2(k as nat),
        );
        // the other cells
        assert forall|id: u32| id < result.0 implies #[trigger] g2(vfp(Var(id)) as int) == f(
            vfp(Var(id)) as int,
        ) by {
            lemma_var_id_ok_mono(id, (first_tmp + bits.len()) as u32);
            lemma_vfp_injective(id, result.0);
            lemma_vfp_injective(id, t.0);
            assert(g0(vfp(Var(id)) as int) == f(vfp(Var(id)) as int));
        }
    }
}

/// The value of a prefix of the bits depends on the prefix alone.
proof fn lemma_bits_value_prefix(f: spec_fn(int) -> int, bits: Seq<Var>, prev: Seq<Var>, k: nat)
    requires
        k <= prev.len(),
        k <= bits.len(),
        forall|j: int| 0 <= j < k ==> prev[j] == bits[j],
    ensures
        bits_value(f, prev, k) == bits_value(f, bits, k),
    decreases k,
{
    if k > 0 {
        lemma_bits_value_prefix(f, bits, prev, (k - 1) as nat);
    }
}

/// The assignments the builder emits copy their source: a variable, a felt, or the four cells of
/// an extension element, each as a field value.
pub proof fn lemma_assignments_copy(dv: Var, sv: Var, df: Felt, sf: Felt, de: Ext, se: Ext, f: spec_fn(int) -> int)
    ensures
        dsl_base_effect(assign_v(dv, sv), f) == Some((vfp(dv) as int, modp(f(vfp(sv) as int)))),
        dsl_base_effect(assign_f(df, sf), f) == Some((ffp(df) as int, modp(f(ffp(sf) as int)))),
        dsl_ext_effect(assign_e(de, se), f) == Some(
            (
                efp(de, 0) as int,
                seq![
                    modp(f(efp(se, 0) as int)),
                    modp(f(efp(se, 1) as int)),
                    modp(f(efp(se, 2) as int)),
                    modp(f(efp(se, 3) as int)),
                ],
            ),
        ),
{
    assert(dsl_ext_effect(assign_e(de, se), f)->Some_0.1 =~= seq![
        modp(f(efp(se, 0) as int)),
        modp(f(efp(se, 1) as int)),
        modp(f(efp(se, 2) as int)),
        modp(f(efp(se, 3) as int)),
    ]);
}

} // verus!
