use openvm_native::extension::FieldExtension;
use openvm_native::field::BabyBear;
use openvm_native::opcodes::FieldExtensionOpcode;
use openvm_native::symbolic::{
    digest_add, digest_const, digest_id, digest_id_ext, div_digests, elements, ext_elements,
    ExtOperand, SymbolicExt, SymbolicFelt, SymbolicVar,
};
use openvm_native::ir::{Ext, Felt, RVar, Var};
use openvm_stark_backend::p3_field::extension::BinomialExtensionField;
use openvm_stark_backend::p3_field::{BasedVectorSpace, Field, PrimeCharacteristicRing, PrimeField32};
use openvm_stark_sdk::p3_baby_bear::BabyBear as P3BabyBear;

type P3Ext = BinomialExtensionField<P3BabyBear, 4>;

const P: u32 = 2013265921;

fn bb(v: u32) -> BabyBear {
    BabyBear { v }
}

fn ext(x: [u32; 4]) -> [BabyBear; 4] {
    x.map(bb)
}

fn p3_ext(x: [u32; 4]) -> P3Ext {
    <P3Ext as BasedVectorSpace<P3BabyBear>>::from_basis_coefficients_fn(|i| P3BabyBear::new(x[i]))
}

fn coords(x: P3Ext) -> [u32; 4] {
    let s: &[P3BabyBear] = BasedVectorSpace::<P3BabyBear>::as_basis_coefficients_slice(&x);
    [s[0].as_canonical_u32(), s[1].as_canonical_u32(), s[2].as_canonical_u32(), s[3].as_canonical_u32()]
}

fn vals(x: [BabyBear; 4]) -> [u32; 4] {
    x.map(|c| c.v)
}

#[test]
fn base_field_arithmetic_wraps_modulo_p() {
    assert_eq!(bb(P - 1).add(bb(2)).v, 1);
    assert_eq!(bb(3).sub(bb(5)).v, P - 2);
    assert_eq!(bb(7).neg().v, P - 7);
    assert_eq!(bb(0).neg().v, 0);
    assert_eq!(bb(1 << 20).mul(bb(1 << 20)).v, ((1u64 << 40) % P as u64) as u32);
    assert_eq!(BabyBear::from_wrapped_u32(P + 5).v, 5);
}

#[test]
fn base_field_inverse_and_division_agree_with_plonky3() {
    for x in [1u32, 2, 3, 31, 12345, P - 1] {
        let inv = bb(x).inverse();
        assert_eq!(inv.v, P3BabyBear::new(x).inverse().as_canonical_u32());
        assert_eq!(bb(x).mul(inv).v, 1);
    }
    let q = bb(10).div(bb(4));
    assert_eq!(q.mul(bb(4)).v, 10);
}

#[test]
fn exponentiation_agrees_with_plonky3() {
    for (b, e) in [(31u32, 1671541671u64), (2, 0), (5, 1), (P - 1, 3), (7, 1 << 40)] {
        assert_eq!(bb(b).exp_u64(e).v, P3BabyBear::new(b).exp_u64(e).as_canonical_u32());
    }
}

#[test]
fn extension_arithmetic_agrees_with_plonky3() {
    let x = [1u32, 2, 3, 4];
    let y = [5u32, P - 6, 7, 123456789];
    assert_eq!(vals(FieldExtension::add(ext(x), ext(y))), coords(p3_ext(x) + p3_ext(y)));
    assert_eq!(vals(FieldExtension::subtract(ext(x), ext(y))), coords(p3_ext(x) - p3_ext(y)));
    assert_eq!(vals(FieldExtension::multiply(ext(x), ext(y))), coords(p3_ext(x) * p3_ext(y)));
    assert_eq!(vals(FieldExtension::invert(ext(y))), coords(p3_ext(y).inverse()));
    assert_eq!(vals(FieldExtension::divide(ext(x), ext(y))), coords(p3_ext(x) / p3_ext(y)));
}

#[test]
fn extension_multiplication_reduces_with_eleven() {
    // x * x^3 = x^4 = 11
    let x = ext([0, 1, 0, 0]);
    let x3 = ext([0, 0, 0, 1]);
    assert_eq!(vals(FieldExtension::multiply(x, x3)), [11, 0, 0, 0]);
}

#[test]
fn extension_inverse_times_element_is_one() {
    let a = ext([9, 8, 7, 6]);
    let inv = FieldExtension::invert(a);
    assert_eq!(vals(FieldExtension::multiply(a, inv)), [1, 0, 0, 0]);
}

#[test]
fn extension_solve_dispatches_on_opcode() {
    let x = ext([1, 2, 3, 4]);
    let y = ext([4, 3, 2, 1]);
    assert_eq!(
        FieldExtension::solve(FieldExtensionOpcode::FE4ADD, x, y).map(vals),
        Some([5, 5, 5, 5])
    );
    assert_eq!(
        FieldExtension::solve(FieldExtensionOpcode::FE4SUB, x, y).map(vals),
        Some([P - 3, P - 1, 1, 3])
    );
    assert_eq!(
        FieldExtension::solve(FieldExtensionOpcode::BBE4MUL, x, y).map(vals),
        Some(coords(p3_ext([1, 2, 3, 4]) * p3_ext([4, 3, 2, 1])))
    );
}

// ---------------------------------------------------------------------------------------------
// Symbolic expressions.
// ---------------------------------------------------------------------------------------------

fn digest_vals(d: [BabyBear; 4]) -> [u32; 4] {
    d.map(|c| c.v)
}

#[test]
fn fingerprint_points_are_powers_of_the_generator() {
    let g = P3BabyBear::GENERATOR;
    let expected = [1671541671u64, 1254988180, 442438744, 1716490559]
        .map(|p| g.exp_u64(p).as_canonical_u32());
    assert_eq!(digest_vals(elements()), expected);
    assert_eq!(P3BabyBear::GENERATOR.as_canonical_u32(), 31);
}

#[test]
fn variable_digest_is_inverse_of_shifted_points() {
    let g = P3BabyBear::GENERATOR;
    for id in [0u32, 1, 7, 1000] {
        let expected = [1671541671u64, 1254988180, 442438744, 1716490559].map(|p| {
            (g.exp_u64(p) + P3BabyBear::new(id))
                .try_inverse()
                .unwrap_or(P3BabyBear::ONE)
                .as_canonical_u32()
        });
        assert_eq!(digest_vals(digest_id(id)), expected);
    }
}

#[test]
fn digest_arithmetic_is_coordinatewise() {
    let a = ext([1, 2, 3, P - 1]);
    let b = ext([5, 6, 7, 2]);
    assert_eq!(digest_vals(digest_add(a, b)), [6, 8, 10, 1]);
    let q = div_digests(a, b);
    for i in 0..4 {
        assert_eq!(q[i].mul(b[i]).v, a[i].v);
    }
    assert_eq!(digest_vals(digest_const(bb(9))), [9, 9, 9, 9]);
}

fn c(v: u32) -> SymbolicVar {
    SymbolicVar::from_field(bb(v))
}

fn v(id: u32) -> SymbolicVar {
    SymbolicVar::from_var(Var(id))
}

fn const_value(e: &SymbolicVar) -> Option<u32> {
    match e {
        SymbolicVar::Const(x, _) => Some(x.v),
        _ => None,
    }
}

#[test]
fn constants_are_folded() {
    assert_eq!(const_value(&c(3).add(c(4))), Some(7));
    assert_eq!(const_value(&c(3).mul(c(4))), Some(12));
    assert_eq!(const_value(&c(3).sub(c(4))), Some(P - 1));
    assert_eq!(const_value(&c(3).neg()), Some(P - 3));
    // the digest of a folded constant is the constant in every coordinate
    assert_eq!(digest_vals(c(3).add(c(4)).digest()), [7, 7, 7, 7]);
}

#[test]
fn neutral_constants_are_dropped() {
    assert!(matches!(c(0).add(v(1)), SymbolicVar::Val(Var(1), _)));
    assert!(matches!(v(1).add(c(0)), SymbolicVar::Val(Var(1), _)));
    assert!(matches!(c(1).mul(v(2)), SymbolicVar::Val(Var(2), _)));
    assert!(matches!(v(2).mul(c(1)), SymbolicVar::Val(Var(2), _)));
    assert_eq!(const_value(&c(0).mul(v(2))), Some(0));
    assert_eq!(const_value(&v(2).mul(c(0))), Some(0));
    assert!(matches!(v(1).sub(c(0)), SymbolicVar::Val(Var(1), _)));
}

#[test]
fn zero_minus_variable_returns_the_variable() {
    // The folding rule for a zero on the left of a subtraction returns the right operand as it
    // is: the value of `0 - x` is built as `x`.
    let r = c(0).sub(v(5));
    assert!(matches!(r, SymbolicVar::Val(Var(5), _)));
    assert_eq!(digest_vals(r.digest()), digest_vals(digest_id(5)));
}

#[test]
fn non_constant_operands_build_nodes() {
    let r = v(1).add(v(2));
    match &r {
        SymbolicVar::Add(a, b, d) => {
            assert!(matches!(**a, SymbolicVar::Val(Var(1), _)));
            assert!(matches!(**b, SymbolicVar::Val(Var(2), _)));
            assert_eq!(digest_vals(*d), digest_vals(digest_add(digest_id(1), digest_id(2))));
        }
        _ => panic!("expected an addition node"),
    }
    assert!(matches!(v(1).mul(v(2)), SymbolicVar::Mul(..)));
    assert!(matches!(v(1).sub(c(3)), SymbolicVar::Sub(..)));
    assert!(matches!(v(1).neg(), SymbolicVar::Neg(..)));
    assert!(matches!(SymbolicVar::from_rvar(RVar::Const(bb(4))), SymbolicVar::Const(..)));
    assert!(matches!(SymbolicVar::from_rvar(RVar::Val(Var(4))), SymbolicVar::Val(Var(4), _)));
}

#[test]
fn felt_expressions_are_never_folded() {
    let a = SymbolicFelt::from_field(bb(2));
    let b = SymbolicFelt::from_field(bb(3));
    assert!(matches!(a.clone().add(b.clone()), SymbolicFelt::Add(..)));
    let d = a.clone().div(b.clone());
    match &d {
        SymbolicFelt::Div(_, _, dig) => assert_eq!(dig[0].mul(bb(3)).v, 2),
        _ => panic!("expected a division node"),
    }
    let f = SymbolicFelt::from_felt(Felt(3));
    assert_eq!(digest_vals(f.digest()), digest_vals(digest_id(3)));
    assert!(matches!(f.neg(), SymbolicFelt::Neg(..)));
}

fn ext_digest_vals(d: [[BabyBear; 4]; 4]) -> [[u32; 4]; 4] {
    d.map(vals)
}

#[test]
fn extension_fingerprint_points_are_powers_of_the_generator() {
    let g = P3Ext::GENERATOR;
    assert_eq!(coords(g), [8, 1, 0, 0]);
    let expected = [1021539871u64, 1430550064, 447478069, 1248903325].map(|p| coords(g.exp_u64(p)));
    assert_eq!(ext_digest_vals(ext_elements()), expected);
}

#[test]
fn extension_variable_digest_agrees_with_plonky3() {
    let g = P3Ext::GENERATOR;
    for id in [0u32, 3, 99] {
        let expected = [1021539871u64, 1430550064, 447478069, 1248903325].map(|p| {
            let s = g.exp_u64(p) + P3Ext::from(P3BabyBear::new(id));
            coords(s.try_inverse().unwrap_or(P3Ext::ONE))
        });
        assert_eq!(ext_digest_vals(digest_id_ext(id)), expected);
    }
}

#[test]
fn extension_expressions_build_nodes_with_operand_digests() {
    let x = ExtOperand::Ext(Ext(1)).symbolic();
    assert!(matches!(x, SymbolicExt::Val(Ext(1), _)));
    assert_eq!(ext_digest_vals(x.digest()), ext_digest_vals(digest_id_ext(1)));
    let c = [bb(1), bb(2), bb(3), bb(4)];
    let y = x.clone().mul(ExtOperand::Const(c));
    match &y {
        SymbolicExt::Mul(a, b, d) => {
            assert!(matches!(**a, SymbolicExt::Val(Ext(1), _)));
            assert!(matches!(**b, SymbolicExt::Const(k, _) if k == c));
            let xd = digest_id_ext(1);
            for i in 0..4 {
                assert_eq!(vals(d[i]), vals(FieldExtension::multiply(xd[i], c)));
            }
        }
        _ => panic!("expected a product node"),
    }
    let z = x.clone().add(ExtOperand::Base(bb(5)));
    match &z {
        SymbolicExt::Add(_, b, d) => {
            assert!(matches!(&**b, SymbolicExt::Base(f, _) if matches!(**f, SymbolicFelt::Const(k, _) if k.v == 5)));
            let xd = digest_id_ext(1);
            assert_eq!(vals(d[0]), vals(FieldExtension::add(xd[0], ext([5, 0, 0, 0]))));
        }
        _ => panic!("expected a sum node"),
    }
    assert!(matches!(x.clone().sub(ExtOperand::Felt(Felt(2))), SymbolicExt::Sub(..)));
    assert!(matches!(x.clone().div(ExtOperand::Ext(Ext(2))), SymbolicExt::Div(..)));
    assert!(matches!(x.neg(), SymbolicExt::Neg(..)));
}

#[test]
fn symbolic_expressions_compare_by_structure() {
    assert!(v(1).add(v(2)) == v(1).add(v(2)));
    assert!(v(1).add(v(2)) != v(2).add(v(1)));
    assert!(v(1).add(v(2)) != v(1).mul(v(2)));
    assert!(c(3) == c(3));
    assert!(c(3) != c(4));
    assert!(v(1).neg() == v(1).neg());
    let f1 = SymbolicFelt::from_felt(Felt(1));
    let f2 = SymbolicFelt::from_felt(Felt(2));
    assert!(f1.clone().div(f2.clone()) == f1.clone().div(f2.clone()));
    assert!(f1.clone().div(f2.clone()) != f2.clone().div(f1.clone()));
    let e1 = ExtOperand::Ext(Ext(1)).symbolic();
    let e2 = ExtOperand::Ext(Ext(2)).symbolic();
    assert!(e1.clone().add(ExtOperand::Sym(e2.clone())) == e1.clone().add(ExtOperand::Sym(e2.clone())));
    assert!(e1.clone().sub(ExtOperand::Sym(e2.clone())) != e2.clone().sub(ExtOperand::Sym(e1.clone())));
    assert!(ExtOperand::Felt(Felt(1)).symbolic() == ExtOperand::Felt(Felt(1)).symbolic());
    assert!(ExtOperand::Felt(Felt(1)).symbolic() != ExtOperand::Felt(Felt(2)).symbolic());
}

#[test]
fn symbolic_products_and_sums_fold_from_the_left() {
    let p = SymbolicVar::product(vec![c(2), c(3), c(5)]);
    assert_eq!(const_value(&p), Some(30));
    let s = SymbolicVar::sum(vec![c(2), c(3), c(5)]);
    assert_eq!(const_value(&s), Some(10));
    assert_eq!(const_value(&SymbolicVar::product(vec![])), Some(1));
    assert_eq!(const_value(&SymbolicVar::sum(vec![])), Some(0));
    // one times a variable is the variable; zero plus a variable is the variable
    assert!(SymbolicVar::product(vec![v(4)]) == v(4));
    assert!(SymbolicVar::sum(vec![v(4), v(5)]) == v(4).add(v(5)));
}

#[test]
fn symbolic_extension_product_multiplies_from_one() {
    let e1 = ExtOperand::Ext(Ext(1)).symbolic();
    let e2 = ExtOperand::Ext(Ext(2)).symbolic();
    let p = SymbolicExt::product(vec![e1.clone(), e2.clone()]);
    let one = ExtOperand::Const([bb(1), bb(0), bb(0), bb(0)]).symbolic();
    let expected = one.clone().mul(ExtOperand::Sym(e1)).mul(ExtOperand::Sym(e2));
    assert!(p == expected);
    assert!(SymbolicExt::product(vec![]) == one);
}
