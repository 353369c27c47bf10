//! The quartic extension `F_p[x] / (x^4 - 11)` of the BabyBear field, used by the
//! field-extension chip and by the FRI reduced-opening chip.
use crate::field::{
    all_canonical4, field_inv, lemma_eqm_add, lemma_eqm_mul, lemma_eqm_sub, lemma_modp_basics,
    lemma_modp_small, modp,
    BabyBear,
};
use crate::opcodes::FieldExtensionOpcode;
use vstd::prelude::*;

verus! {

/// The non-residue `W` with `x^4 = W`.
pub const BETA: usize = 11;

/// The degree of the extension.
pub const EXT_DEG: usize = 4;

/// The coordinates of an extension element as integers.
pub open spec fn ext_vals(x: [BabyBear; 4]) -> Seq<int> {
    seq![x[0].val(), x[1].val(), x[2].val(), x[3].val()]
}

/// Coordinate-wise reduction modulo `p`.
pub open spec fn reduce4(x: Seq<int>) -> Seq<int> {
    seq![modp(x[0]), modp(x[1]), modp(x[2]), modp(x[3])]
}

/// Coordinate-wise sum over the integers.
pub open spec fn ext_add_int(x: Seq<int>, y: Seq<int>) -> Seq<int> {
    seq![x[0] + y[0], x[1] + y[1], x[2] + y[2], x[3] + y[3]]
}

/// Coordinate-wise difference over the integers.
pub open spec fn ext_sub_int(x: Seq<int>, y: Seq<int>) -> Seq<int> {
    seq![x[0] - y[0], x[1] - y[1], x[2] - y[2], x[3] - y[3]]
}

/// Product of two polynomials of degree below 4, reduced with `x^4 = 11`, over the integers.
pub open spec fn ext_mul_int(x: Seq<int>, y: Seq<int>) -> Seq<int> {
    seq![
        x[0] * y[0] + (x[1] * y[3] + x[2] * y[2] + x[3] * y[1]) * 11,
        x[0] * y[1] + x[1] * y[0] + (x[2] * y[3] + x[3] * y[2]) * 11,
        x[0] * y[2] + x[1] * y[1] + x[2] * y[0] + (x[3] * y[3]) * 11,
        x[0] * y[3] + x[1] * y[2] + x[2] * y[1] + x[3] * y[0],
    ]
}

/// The extension sum of canonical coordinates.
pub open spec fn ext_add_spec(x: [BabyBear; 4], y: [BabyBear; 4]) -> Seq<int> {
    reduce4(ext_add_int(ext_vals(x), ext_vals(y)))
}

/// The extension difference of canonical coordinates.
pub open spec fn ext_sub_spec(x: [BabyBear; 4], y: [BabyBear; 4]) -> Seq<int> {
    reduce4(ext_sub_int(ext_vals(x), ext_vals(y)))
}

/// The extension product.
pub open spec fn ext_mul_spec(x: [BabyBear; 4], y: [BabyBear; 4]) -> Seq<int> {
    reduce4(ext_mul_int(ext_vals(x), ext_vals(y)))
}

/// The multiplicative unit of the extension.
pub open spec fn ext_one() -> Seq<int> {
    seq![1int, 0, 0, 0]
}

/// The intermediate quantities of the inversion: `a * conj(a) = b0 + b2 x^2`, and the norm
/// `c = b0^2 - 11 b2^2`, which lies in the base field.
pub open spec fn inv_b0(a: Seq<int>) -> int {
    a[0] * a[0] - 11 * (2 * a[1] * a[3] - a[2] * a[2])
}

pub open spec fn inv_b2(a: Seq<int>) -> int {
    2 * a[0] * a[2] - a[1] * a[1] - 11 * a[3] * a[3]
}

/// The norm of `a` down to the base field.
pub open spec fn ext_norm(a: Seq<int>) -> int {
    inv_b0(a) * inv_b0(a) - 11 * inv_b2(a) * inv_b2(a)
}

/// The adjugate of `a`: `a * adj(a) = norm(a)`.
pub open spec fn ext_adj(a: Seq<int>) -> Seq<int> {
    let b0 = inv_b0(a);
    let b2 = inv_b2(a);
    seq![
        a[0] * b0 - a[2] * b2 * 11,
        -a[1] * b0 + a[3] * b2 * 11,
        -a[0] * b2 + a[2] * b0,
        a[1] * b2 - a[3] * b0,
    ]
}

/// The inverse of `a`: its adjugate divided by its norm, coordinate-wise reduced.
pub open spec fn ext_inv(a: Seq<int>) -> Seq<int> {
    reduce4(ext_scale_int(ext_adj(a), field_inv(modp(ext_norm(a)))))
}

/// The quotient `x / y` of coordinate sequences.
pub open spec fn ext_div_spec(x: [BabyBear; 4], y: [BabyBear; 4]) -> Seq<int> {
    reduce4(ext_mul_int(ext_vals(x), ext_inv(ext_vals(y))))
}

/// Scaling of all four coordinates.
pub open spec fn ext_scale_int(x: Seq<int>, s: int) -> Seq<int> {
    seq![x[0] * s, x[1] * s, x[2] * s, x[3] * s]
}

/// Two coordinate sequences are congruent modulo `p`.
pub open spec fn eqm4(x: Seq<int>, y: Seq<int>) -> bool {
    &&& modp(x[0]) == modp(y[0])
    &&& modp(x[1]) == modp(y[1])
    &&& modp(x[2]) == modp(y[2])
    &&& modp(x[3]) == modp(y[3])
}

// ---------------------------------------------------------------------------------------------
// Congruence helpers: a field operation whose operands are congruent to integer expressions gives
// a result congruent to the expression.
// ---------------------------------------------------------------------------------------------
proof fn cong_add(r: int, a: int, b: int, x: int, y: int)
    requires
        r == modp(a + b),
        modp(a) == modp(x),
        modp(b) == modp(y),
    ensures
        modp(r) == modp(x + y),
{
    lemma_modp_basics(a + b);
    lemma_eqm_add(a, x, b, y);
}

proof fn cong_sub(r: int, a: int, b: int, x: int, y: int)
    requires
        r == modp(a - b),
        modp(a) == modp(x),
        modp(b) == modp(y),
    ensures
        modp(r) == modp(x - y),
{
    lemma_modp_basics(a - b);
    lemma_eqm_sub(a, x, b, y);
}

proof fn cong_mul(r: int, a: int, b: int, x: int, y: int)
    requires
        r == modp(a * b),
        modp(a) == modp(x),
        modp(b) == modp(y),
    ensures
        modp(r) == modp(x * y),
{
    lemma_modp_basics(a * b);
    lemma_eqm_mul(a, x, b, y);
}

/// Congruent right factors give congruent products.
pub(crate) proof fn lemma_ext_mul_congruent(x: Seq<int>, y: Seq<int>, z: Seq<int>)
    requires
        x.len() == 4,
        y.len() == 4,
        z.len() == 4,
        eqm4(y, z),
    ensures
        eqm4(ext_mul_int(x, y), ext_mul_int(x, z)),
{
    let ghost x0 = x[0];
    let ghost x1 = x[1];
    let ghost x2 = x[2];
    let ghost x3 = x[3];
    assert forall|i: int, j: int| 0 <= i < 4 && 0 <= j < 4 implies modp(x[i] * y[j]) == modp(
        x[i] * z[j],
    ) by {
        lemma_eqm_mul(x[i], x[i], y[j], z[j]);
    }
    // coefficient 0
    lemma_eqm_add(x1 * y[3], x1 * z[3], x2 * y[2], x2 * z[2]);
    lemma_eqm_add(x1 * y[3] + x2 * y[2], x1 * z[3] + x2 * z[2], x3 * y[1], x3 * z[1]);
    lemma_eqm_mul(
        x1 * y[3] + x2 * y[2] + x3 * y[1],
        x1 * z[3] + x2 * z[2] + x3 * z[1],
        11,
        11,
    );
    lemma_eqm_add(
        x0 * y[0],
        x0 * z[0],
        (x1 * y[3] + x2 * y[2] + x3 * y[1]) * 11,
        (x1 * z[3] + x2 * z[2] + x3 * z[1]) * 11,
    );
    // coefficient 1
    lemma_eqm_add(x0 * y[1], x0 * z[1], x1 * y[0], x1 * z[0]);
    lemma_eqm_add(x2 * y[3], x2 * z[3], x3 * y[2], x3 * z[2]);
    lemma_eqm_mul(x2 * y[3] + x3 * y[2], x2 * z[3] + x3 * z[2], 11, 11);
    lemma_eqm_add(
        x0 * y[1] + x1 * y[0],
        x0 * z[1] + x1 * z[0],
        (x2 * y[3] + x3 * y[2]) * 11,
        (x2 * z[3] + x3 * z[2]) * 11,
    );
    // coefficient 2
    lemma_eqm_add(x0 * y[2], x0 * z[2], x1 * y[1], x1 * z[1]);
    lemma_eqm_add(x0 * y[2] + x1 * y[1], x0 * z[2] + x1 * z[1], x2 * y[0], x2 * z[0]);
    lemma_eqm_mul(x3 * y[3], x3 * z[3], 11, 11);
    lemma_eqm_add(
        x0 * y[2] + x1 * y[1] + x2 * y[0],
        x0 * z[2] + x1 * z[1] + x2 * z[0],
        (x3 * y[3]) * 11,
        (x3 * z[3]) * 11,
    );
    // coefficient 3
    lemma_eqm_add(x0 * y[3], x0 * z[3], x1 * y[2], x1 * z[2]);
    lemma_eqm_add(x0 * y[3] + x1 * y[2], x0 * z[3] + x1 * z[2], x2 * y[1], x2 * z[1]);
    lemma_eqm_add(
        x0 * y[3] + x1 * y[2] + x2 * y[1],
        x0 * z[3] + x1 * z[2] + x2 * z[1],
        x3 * y[0],
        x3 * z[0],
    );
}

proof fn lemma_dist4(a: int, b: int, c: int, d: int, s: int)
    ensures
        (a + b + c + d) * s == a * s + b * s + c * s + d * s,
        (a + b + c) * s == a * s + b * s + c * s,
        (a + b) * s == a * s + b * s,
{
    assert((a + b + c + d) * s == a * s + b * s + c * s + d * s) by (nonlinear_arith);
    assert((a + b + c) * s == a * s + b * s + c * s) by (nonlinear_arith);
    assert((a + b) * s == a * s + b * s) by (nonlinear_arith);
}

/// The product of the extension commutes over the integers.
pub(crate) proof fn lemma_ext_mul_comm(x: Seq<int>, y: Seq<int>)
    requires
        x.len() == 4,
        y.len() == 4,
    ensures
        ext_mul_int(x, y) == ext_mul_int(y, x),
{
    let (x0, x1, x2, x3) = (x[0], x[1], x[2], x[3]);
    let (y0, y1, y2, y3) = (y[0], y[1], y[2], y[3]);
    assert(x0 * y0 + (x1 * y3 + x2 * y2 + x3 * y1) * 11 == y0 * x0 + (y1 * x3 + y2 * x2 + y3 * x1) * 11)
        by (nonlinear_arith);
    assert(x0 * y1 + x1 * y0 + (x2 * y3 + x3 * y2) * 11 == y0 * x1 + y1 * x0 + (y2 * x3 + y3 * x2) * 11)
        by (nonlinear_arith);
    assert(x0 * y2 + x1 * y1 + x2 * y0 + (x3 * y3) * 11 == y0 * x2 + y1 * x1 + y2 * x0 + (y3 * x3) * 11)
        by (nonlinear_arith);
    assert(x0 * y3 + x1 * y2 + x2 * y1 + x3 * y0 == y0 * x3 + y1 * x2 + y2 * x1 + y3 * x0)
        by (nonlinear_arith);
    assert(ext_mul_int(x, y) =~= ext_mul_int(y, x));
}

/// Congruent factors give congruent products.
pub(crate) proof fn lemma_ext_mul_cong2(x: Seq<int>, x2: Seq<int>, y: Seq<int>, y2: Seq<int>)
    requires
        x.len() == 4,
        x2.len() == 4,
        y.len() == 4,
        y2.len() == 4,
        eqm4(x, x2),
        eqm4(y, y2),
    ensures
        eqm4(ext_mul_int(x, y), ext_mul_int(x2, y2)),
{
    lemma_ext_mul_congruent(x, y, y2);
    lemma_ext_mul_comm(x, y2);
    lemma_ext_mul_congruent(y2, x, x2);
    lemma_ext_mul_comm(y2, x2);
}

/// One is the unit of the product.
proof fn lemma_ext_mul_one(x: Seq<int>)
    requires
        x.len() == 4,
    ensures
        ext_mul_int(x, ext_one()) == x,
{
    let o = ext_one();
    assert(o[0] == 1 && o[1] == 0 && o[2] == 0 && o[3] == 0);
    let m = ext_mul_int(x, o);
    assert(m[0] == x[0] * 1 + (x[1] * 0 + x[2] * 0 + x[3] * 0) * 11);
    assert(m[1] == x[0] * 0 + x[1] * 1 + (x[2] * 0 + x[3] * 0) * 11);
    assert(m[2] == x[0] * 0 + x[1] * 0 + x[2] * 1 + (x[3] * 0) * 11);
    assert(m[3] == x[0] * 0 + x[1] * 0 + x[2] * 0 + x[3] * 1);
    assert(m =~= x);
}

/// The product of the extension is associative over the integers.
#[verifier::spinoff_prover]
pub(crate) proof fn lemma_ext_mul_assoc(x: Seq<int>, y: Seq<int>, z: Seq<int>)
    requires
        x.len() == 4,
        y.len() == 4,
        z.len() == 4,
    ensures
        ext_mul_int(ext_mul_int(x, y), z) == ext_mul_int(x, ext_mul_int(y, z)),
{
    let (x0, x1, x2, x3) = (x[0], x[1], x[2], x[3]);
    let (y0, y1, y2, y3) = (y[0], y[1], y[2], y[3]);
    let (z0, z1, z2, z3) = (z[0], z[1], z[2], z[3]);
    let p = ext_mul_int(x, y);
    let q = ext_mul_int(y, z);
    let (p0, p1, p2, p3) = (p[0], p[1], p[2], p[3]);
    let (q0, q1, q2, q3) = (q[0], q[1], q[2], q[3]);
    assert(p0 == 1 * (x0 * y0) + 11 * (x1 * y3) + 11 * (x2 * y2) + 11 * (x3 * y1));
    assert(p1 == 1 * (x0 * y1) + 1 * (x1 * y0) + 11 * (x2 * y3) + 11 * (x3 * y2));
    assert(p2 == 1 * (x0 * y2) + 1 * (x1 * y1) + 1 * (x2 * y0) + 11 * (x3 * y3));
    assert(p3 == 1 * (x0 * y3) + 1 * (x1 * y2) + 1 * (x2 * y1) + 1 * (x3 * y0));
    assert(q0 == 1 * (y0 * z0) + 11 * (y1 * z3) + 11 * (y2 * z2) + 11 * (y3 * z1));
    assert(q1 == 1 * (y0 * z1) + 1 * (y1 * z0) + 11 * (y2 * z3) + 11 * (y3 * z2));
    assert(q2 == 1 * (y0 * z2) + 1 * (y1 * z1) + 1 * (y2 * z0) + 11 * (y3 * z3));
    assert(q3 == 1 * (y0 * z3) + 1 * (y1 * z2) + 1 * (y2 * z1) + 1 * (y3 * z0));
    assert(p0 * z0 == 1 * (x0 * y0 * z0) + 11 * (x1 * y3 * z0) + 11 * (x2 * y2 * z0) + 11 * (x3 * y1 * z0)) by (nonlinear_arith)
        requires
            p0 == 1 * (x0 * y0) + 11 * (x1 * y3) + 11 * (x2 * y2) + 11 * (x3 * y1),
    ;
    assert(p0 * z1 == 1 * (x0 * y0 * z1) + 11 * (x1 * y3 * z1) + 11 * (x2 * y2 * z1) + 11 * (x3 * y1 * z1)) by (nonlinear_arith)
        requires
            p0 == 1 * (x0 * y0) + 11 * (x1 * y3) + 11 * (x2 * y2) + 11 * (x3 * y1),
    ;
    assert(p0 * z2 == 1 * (x0 * y0 * z2) + 11 * (x1 * y3 * z2) + 11 * (x2 * y2 * z2) + 11 * (x3 * y1 * z2)) by (nonlinear_arith)
        requires
            p0 == 1 * (x0 * y0) + 11 * (x1 * y3) + 11 * (x2 * y2) + 11 * (x3 * y1),
    ;
    assert(p0 * z3 == 1 * (x0 * y0 * z3) + 11 * (x1 * y3 * z3) + 11 * (x2 * y2 * z3) + 11 * (x3 * y1 * z3)) by (nonlinear_arith)
        requires
            p0 == 1 * (x0 * y0) + 11 * (x1 * y3) + 11 * (x2 * y2) + 11 * (x3 * y1),
    ;
    assert(p1 * z0 == 1 * (x0 * y1 * z0) + 1 * (x1 * y0 * z0) + 11 * (x2 * y3 * z0) + 11 * (x3 * y2 * z0)) by (nonlinear_arith)
        requires
            p1 == 1 * (x0 * y1) + 1 * (x1 * y0) + 11 * (x2 * y3) + 11 * (x3 * y2),
    ;
    assert(p1 * z1 == 1 * (x0 * y1 * z1) + 1 * (x1 * y0 * z1) + 11 * (x2 * y3 * z1) + 11 * (x3 * y2 * z1)) by (nonlinear_arith)
        requires
            p1 == 1 * (x0 * y1) + 1 * (x1 * y0) + 11 * (x2 * y3) + 11 * (x3 * y2),
    ;
    assert(p1 * z2 == 1 * (x0 * y1 * z2) + 1 * (x1 * y0 * z2) + 11 * (x2 * y3 * z2) + 11 * (x3 * y2 * z2)) by (nonlinear_arith)
        requires
            p1 == 1 * (x0 * y1) + 1 * (x1 * y0) + 11 * (x2 * y3) + 11 * (x3 * y2),
    ;
    assert(p1 * z3 == 1 * (x0 * y1 * z3) + 1 * (x1 * y0 * z3) + 11 * (x2 * y3 * z3) + 11 * (x3 * y2 * z3)) by (nonlinear_arith)
        requires
            p1 == 1 * (x0 * y1) + 1 * (x1 * y0) + 11 * (x2 * y3) + 11 * (x3 * y2),
    ;
    assert(p2 * z0 == 1 * (x0 * y2 * z0) + 1 * (x1 * y1 * z0) + 1 * (x2 * y0 * z0) + 11 * (x3 * y3 * z0)) by (nonlinear_arith)
        requires
            p2 == 1 * (x0 * y2) + 1 * (x1 * y1) + 1 * (x2 * y0) + 11 * (x3 * y3),
    ;
    assert(p2 * z1 == 1 * (x0 * y2 * z1) + 1 * (x1 * y1 * z1) + 1 * (x2 * y0 * z1) + 11 * (x3 * y3 * z1)) by (nonlinear_arith)
        requires
            p2 == 1 * (x0 * y2) + 1 * (x1 * y1) + 1 * (x2 * y0) + 11 * (x3 * y3),
    ;
    assert(p2 * z2 == 1 * (x0 * y2 * z2) + 1 * (x1 * y1 * z2) + 1 * (x2 * y0 * z2) + 11 * (x3 * y3 * z2)) by (nonlinear_arith)
        requires
            p2 == 1 * (x0 * y2) + 1 * (x1 * y1) + 1 * (x2 * y0) + 11 * (x3 * y3),
    ;
    assert(p2 * z3 == 1 * (x0 * y2 * z3) + 1 * (x1 * y1 * z3) + 1 * (x2 * y0 * z3) + 11 * (x3 * y3 * z3)) by (nonlinear_arith)
        requires
            p2 == 1 * (x0 * y2) + 1 * (x1 * y1) + 1 * (x2 * y0) + 11 * (x3 * y3),
    ;
    assert(p3 * z0 == 1 * (x0 * y3 * z0) + 1 * (x1 * y2 * z0) + 1 * (x2 * y1 * z0) + 1 * (x3 * y0 * z0)) by (nonlinear_arith)
        requires
            p3 == 1 * (x0 * y3) + 1 * (x1 * y2) + 1 * (x2 * y1) + 1 * (x3 * y0),
    ;
    assert(p3 * z1 == 1 * (x0 * y3 * z1) + 1 * (x1 * y2 * z1) + 1 * (x2 * y1 * z1) + 1 * (x3 * y0 * z1)) by (nonlinear_arith)
        requires
            p3 == 1 * (x0 * y3) + 1 * (x1 * y2) + 1 * (x2 * y1) + 1 * (x3 * y0),
    ;
    assert(p3 * z2 == 1 * (x0 * y3 * z2) + 1 * (x1 * y2 * z2) + 1 * (x2 * y1 * z2) + 1 * (x3 * y0 * z2)) by (nonlinear_arith)
        requires
            p3 == 1 * (x0 * y3) + 1 * (x1 * y2) + 1 * (x2 * y1) + 1 * (x3 * y0),
    ;
    assert(p3 * z3 == 1 * (x0 * y3 * z3) + 1 * (x1 * y2 * z3) + 1 * (x2 * y1 * z3) + 1 * (x3 * y0 * z3)) by (nonlinear_arith)
        requires
            p3 == 1 * (x0 * y3) + 1 * (x1 * y2) + 1 * (x2 * y1) + 1 * (x3 * y0),
    ;
    assert(x0 * q0 == 1 * (x0 * (y0 * z0)) + 11 * (x0 * (y1 * z3)) + 11 * (x0 * (y2 * z2)) + 11 * (x0 * (y3 * z1))) by (nonlinear_arith)
        requires
            q0 == 1 * (y0 * z0) + 11 * (y1 * z3) + 11 * (y2 * z2) + 11 * (y3 * z1),
    ;
    assert(x0 * q1 == 1 * (x0 * (y0 * z1)) + 1 * (x0 * (y1 * z0)) + 11 * (x0 * (y2 * z3)) + 11 * (x0 * (y3 * z2))) by (nonlinear_arith)
        requires
            q1 == 1 * (y0 * z1) + 1 * (y1 * z0) + 11 * (y2 * z3) + 11 * (y3 * z2),
    ;
    assert(x0 * q2 == 1 * (x0 * (y0 * z2)) + 1 * (x0 * (y1 * z1)) + 1 * (x0 * (y2 * z0)) + 11 * (x0 * (y3 * z3))) by (nonlinear_arith)
        requires
            q2 == 1 * (y0 * z2) + 1 * (y1 * z1) + 1 * (y2 * z0) + 11 * (y3 * z3),
    ;
    assert(x0 * q3 == 1 * (x0 * (y0 * z3)) + 1 * (x0 * (y1 * z2)) + 1 * (x0 * (y2 * z1)) + 1 * (x0 * (y3 * z0))) by (nonlinear_arith)
        requires
            q3 == 1 * (y0 * z3) + 1 * (y1 * z2) + 1 * (y2 * z1) + 1 * (y3 * z0),
    ;
    assert(x1 * q0 == 1 * (x1 * (y0 * z0)) + 11 * (x1 * (y1 * z3)) + 11 * (x1 * (y2 * z2)) + 11 * (x1 * (y3 * z1))) by (nonlinear_arith)
        requires
            q0 == 1 * (y0 * z0) + 11 * (y1 * z3) + 11 * (y2 * z2) + 11 * (y3 * z1),
    ;
    assert(x1 * q1 == 1 * (x1 * (y0 * z1)) + 1 * (x1 * (y1 * z0)) + 11 * (x1 * (y2 * z3)) + 11 * (x1 * (y3 * z2))) by (nonlinear_arith)
        requires
            q1 == 1 * (y0 * z1) + 1 * (y1 * z0) + 11 * (y2 * z3) + 11 * (y3 * z2),
    ;
    assert(x1 * q2 == 1 * (x1 * (y0 * z2)) + 1 * (x1 * (y1 * z1)) + 1 * (x1 * (y2 * z0)) + 11 * (x1 * (y3 * z3))) by (nonlinear_arith)
        requires
            q2 == 1 * (y0 * z2) + 1 * (y1 * z1) + 1 * (y2 * z0) + 11 * (y3 * z3),
    ;
    assert(x1 * q3 == 1 * (x1 * (y0 * z3)) + 1 * (x1 * (y1 * z2)) + 1 * (x1 * (y2 * z1)) + 1 * (x1 * (y3 * z0))) by (nonlinear_arith)
        requires
            q3 == 1 * (y0 * z3) + 1 * (y1 * z2) + 1 * (y2 * z1) + 1 * (y3 * z0),
    ;
    assert(x2 * q0 == 1 * (x2 * (y0 * z0)) + 11 * (x2 * (y1 * z3)) + 11 * (x2 * (y2 * z2)) + 11 * (x2 * (y3 * z1))) by (nonlinear_arith)
        requires
            q0 == 1 * (y0 * z0) + 11 * (y1 * z3) + 11 * (y2 * z2) + 11 * (y3 * z1),
    ;
    assert(x2 * q1 == 1 * (x2 * (y0 * z1)) + 1 * (x2 * (y1 * z0)) + 11 * (x2 * (y2 * z3)) + 11 * (x2 * (y3 * z2))) by (nonlinear_arith)
        requires
            q1 == 1 * (y0 * z1) + 1 * (y1 * z0) + 11 * (y2 * z3) + 11 * (y3 * z2),
    ;
    assert(x2 * q2 == 1 * (x2 * (y0 * z2)) + 1 * (x2 * (y1 * z1)) + 1 * (x2 * (y2 * z0)) + 11 * (x2 * (y3 * z3))) by (nonlinear_arith)
        requires
            q2 == 1 * (y0 * z2) + 1 * (y1 * z1) + 1 * (y2 * z0) + 11 * (y3 * z3),
    ;
    assert(x2 * q3 == 1 * (x2 * (y0 * z3)) + 1 * (x2 * (y1 * z2)) + 1 * (x2 * (y2 * z1)) + 1 * (x2 * (y3 * z0))) by (nonlinear_arith)
        requires
            q3 == 1 * (y0 * z3) + 1 * (y1 * z2) + 1 * (y2 * z1) + 1 * (y3 * z0),
    ;
    assert(x3 * q0 == 1 * (x3 * (y0 * z0)) + 11 * (x3 * (y1 * z3)) + 11 * (x3 * (y2 * z2)) + 11 * (x3 * (y3 * z1))) by (nonlinear_arith)
        requires
            q0 == 1 * (y0 * z0) + 11 * (y1 * z3) + 11 * (y2 * z2) + 11 * (y3 * z1),
    ;
    assert(x3 * q1 == 1 * (x3 * (y0 * z1)) + 1 * (x3 * (y1 * z0)) + 11 * (x3 * (y2 * z3)) + 11 * (x3 * (y3 * z2))) by (nonlinear_arith)
        requires
            q1 == 1 * (y0 * z1) + 1 * (y1 * z0) + 11 * (y2 * z3) + 11 * (y3 * z2),
    ;
    assert(x3 * q2 == 1 * (x3 * (y0 * z2)) + 1 * (x3 * (y1 * z1)) + 1 * (x3 * (y2 * z0)) + 11 * (x3 * (y3 * z3))) by (nonlinear_arith)
        requires
            q2 == 1 * (y0 * z2) + 1 * (y1 * z1) + 1 * (y2 * z0) + 11 * (y3 * z3),
    ;
    assert(x3 * q3 == 1 * (x3 * (y0 * z3)) + 1 * (x3 * (y1 * z2)) + 1 * (x3 * (y2 * z1)) + 1 * (x3 * (y3 * z0))) by (nonlinear_arith)
        requires
            q3 == 1 * (y0 * z3) + 1 * (y1 * z2) + 1 * (y2 * z1) + 1 * (y3 * z0),
    ;
    assert(x0 * (y0 * z0) == x0 * y0 * z0) by (nonlinear_arith);
    assert(x0 * (y0 * z1) == x0 * y0 * z1) by (nonlinear_arith);
    assert(x0 * (y0 * z2) == x0 * y0 * z2) by (nonlinear_arith);
    assert(x0 * (y0 * z3) == x0 * y0 * z3) by (nonlinear_arith);
    assert(x0 * (y1 * z0) == x0 * y1 * z0) by (nonlinear_arith);
    assert(x0 * (y1 * z1) == x0 * y1 * z1) by (nonlinear_arith);
    assert(x0 * (y1 * z2) == x0 * y1 * z2) by (nonlinear_arith);
    assert(x0 * (y1 * z3) == x0 * y1 * z3) by (nonlinear_arith);
    assert(x0 * (y2 * z0) == x0 * y2 * z0) by (nonlinear_arith);
    assert(x0 * (y2 * z1) == x0 * y2 * z1) by (nonlinear_arith);
    assert(x0 * (y2 * z2) == x0 * y2 * z2) by (nonlinear_arith);
    assert(x0 * (y2 * z3) == x0 * y2 * z3) by (nonlinear_arith);
    assert(x0 * (y3 * z0) == x0 * y3 * z0) by (nonlinear_arith);
    assert(x0 * (y3 * z1) == x0 * y3 * z1) by (nonlinear_arith);
    assert(x0 * (y3 * z2) == x0 * y3 * z2) by (nonlinear_arith);
    assert(x0 * (y3 * z3) == x0 * y3 * z3) by (nonlinear_arith);
    assert(x1 * (y0 * z0) == x1 * y0 * z0) by (nonlinear_arith);
    assert(x1 * (y0 * z1) == x1 * y0 * z1) by (nonlinear_arith);
    assert(x1 * (y0 * z2) == x1 * y0 * z2) by (nonlinear_arith);
    assert(x1 * (y0 * z3) == x1 * y0 * z3) by (nonlinear_arith);
    assert(x1 * (y1 * z0) == x1 * y1 * z0) by (nonlinear_arith);
    assert(x1 * (y1 * z1) == x1 * y1 * z1) by (nonlinear_arith);
    assert(x1 * (y1 * z2) == x1 * y1 * z2) by (nonlinear_arith);
    assert(x1 * (y1 * z3) == x1 * y1 * z3) by (nonlinear_arith);
    assert(x1 * (y2 * z0) == x1 * y2 * z0) by (nonlinear_arith);
    assert(x1 * (y2 * z1) == x1 * y2 * z1) by (nonlinear_arith);
    assert(x1 * (y2 * z2) == x1 * y2 * z2) by (nonlinear_arith);
    assert(x1 * (y2 * z3) == x1 * y2 * z3) by (nonlinear_arith);
    assert(x1 * (y3 * z0) == x1 * y3 * z0) by (nonlinear_arith);
    assert(x1 * (y3 * z1) == x1 * y3 * z1) by (nonlinear_arith);
    assert(x1 * (y3 * z2) == x1 * y3 * z2) by (nonlinear_arith);
    assert(x1 * (y3 * z3) == x1 * y3 * z3) by (nonlinear_arith);
    assert(x2 * (y0 * z0) == x2 * y0 * z0) by (nonlinear_arith);
    assert(x2 * (y0 * z1) == x2 * y0 * z1) by (nonlinear_arith);
    assert(x2 * (y0 * z2) == x2 * y0 * z2) by (nonlinear_arith);
    assert(x2 * (y0 * z3) == x2 * y0 * z3) by (nonlinear_arith);
    assert(x2 * (y1 * z0) == x2 * y1 * z0) by (nonlinear_arith);
    assert(x2 * (y1 * z1) == x2 * y1 * z1) by (nonlinear_arith);
    assert(x2 * (y1 * z2) == x2 * y1 * z2) by (nonlinear_arith);
    assert(x2 * (y1 * z3) == x2 * y1 * z3) by (nonlinear_arith);
    assert(x2 * (y2 * z0) == x2 * y2 * z0) by (nonlinear_arith);
    assert(x2 * (y2 * z1) == x2 * y2 * z1) by (nonlinear_arith);
    assert(x2 * (y2 * z2) == x2 * y2 * z2) by (nonlinear_arith);
    assert(x2 * (y2 * z3) == x2 * y2 * z3) by (nonlinear_arith);
    assert(x2 * (y3 * z0) == x2 * y3 * z0) by (nonlinear_arith);
    assert(x2 * (y3 * z1) == x2 * y3 * z1) by (nonlinear_arith);
    assert(x2 * (y3 * z2) == x2 * y3 * z2) by (nonlinear_arith);
    assert(x2 * (y3 * z3) == x2 * y3 * z3) by (nonlinear_arith);
    assert(x3 * (y0 * z0) == x3 * y0 * z0) by (nonlinear_arith);
    assert(x3 * (y0 * z1) == x3 * y0 * z1) by (nonlinear_arith);
    assert(x3 * (y0 * z2) == x3 * y0 * z2) by (nonlinear_arith);
    assert(x3 * (y0 * z3) == x3 * y0 * z3) by (nonlinear_arith);
    assert(x3 * (y1 * z0) == x3 * y1 * z0) by (nonlinear_arith);
    assert(x3 * (y1 * z1) == x3 * y1 * z1) by (nonlinear_arith);
    assert(x3 * (y1 * z2) == x3 * y1 * z2) by (nonlinear_arith);
    assert(x3 * (y1 * z3) == x3 * y1 * z3) by (nonlinear_arith);
    assert(x3 * (y2 * z0) == x3 * y2 * z0) by (nonlinear_arith);
    assert(x3 * (y2 * z1) == x3 * y2 * z1) by (nonlinear_arith);
    assert(x3 * (y2 * z2) == x3 * y2 * z2) by (nonlinear_arith);
    assert(x3 * (y2 * z3) == x3 * y2 * z3) by (nonlinear_arith);
    assert(x3 * (y3 * z0) == x3 * y3 * z0) by (nonlinear_arith);
    assert(x3 * (y3 * z1) == x3 * y3 * z1) by (nonlinear_arith);
    assert(x3 * (y3 * z2) == x3 * y3 * z2) by (nonlinear_arith);
    assert(x3 * (y3 * z3) == x3 * y3 * z3) by (nonlinear_arith);
    assert(ext_mul_int(p, z) =~= ext_mul_int(x, q));
}

/// The product with a scaled factor is the scaled product.
proof fn lemma_ext_mul_scale(x: Seq<int>, y: Seq<int>, s: int)
    requires
        x.len() == 4,
        y.len() == 4,
    ensures
        ext_mul_int(x, ext_scale_int(y, s)) == ext_scale_int(ext_mul_int(x, y), s),
{
    let m = ext_mul_int(x, ext_scale_int(y, s));
    let n = ext_scale_int(ext_mul_int(x, y), s);
    let (x0, x1, x2, x3) = (x[0], x[1], x[2], x[3]);
    let (y0, y1, y2, y3) = (y[0], y[1], y[2], y[3]);
    assert forall|i: int, j: int| 0 <= i < 4 && 0 <= j < 4 implies #[trigger] (x[i] * (y[j] * s))
        == (x[i] * y[j]) * s by {
        assert(x[i] * (y[j] * s) == (x[i] * y[j]) * s) by (nonlinear_arith);
    }
    lemma_dist4(x1 * y3, x2 * y2, x3 * y1, 0, s);
    lemma_dist4(x0 * y0, (x1 * y3 + x2 * y2 + x3 * y1) * 11, 0, 0, s);
    assert(((x1 * y3 + x2 * y2 + x3 * y1) * 11) * s == ((x1 * y3 + x2 * y2 + x3 * y1) * s) * 11)
        by (nonlinear_arith);
    lemma_dist4(x2 * y3, x3 * y2, 0, 0, s);
    lemma_dist4(x0 * y1, x1 * y0, (x2 * y3 + x3 * y2) * 11, 0, s);
    assert(((x2 * y3 + x3 * y2) * 11) * s == ((x2 * y3 + x3 * y2) * s) * 11) by (nonlinear_arith);
    lemma_dist4(x0 * y2, x1 * y1, x2 * y0, (x3 * y3) * 11, s);
    assert(((x3 * y3) * 11) * s == ((x3 * y3) * s) * 11) by (nonlinear_arith);
    lemma_dist4(x0 * y3, x1 * y2, x2 * y1, x3 * y0, s);
    assert(m =~= n);
}

/// `a * adj(a) = norm(a)` over the integers.
proof fn lemma_adjugate(a: Seq<int>)
    requires
        a.len() == 4,
    ensures
        ext_mul_int(a, ext_adj(a)) == seq![ext_norm(a), 0int, 0int, 0int],
{
    let (a0, a1, a2, a3) = (a[0], a[1], a[2], a[3]);
    let b0 = inv_b0(a);
    let b2 = inv_b2(a);
    let q = ext_adj(a);
    let (q0, q1, q2, q3) = (q[0], q[1], q[2], q[3]);
    assert(q0 == a0 * b0 - a2 * b2 * 11);
    assert(q1 == -a1 * b0 + a3 * b2 * 11);
    assert(q2 == -a0 * b2 + a2 * b0);
    assert(q3 == a1 * b2 - a3 * b0);
    // expand every product a_i * q_j into monomials
    assert(a0 * q0 == a0 * a0 * b0 - 11 * (a0 * a2 * b2)) by (nonlinear_arith)
        requires q0 == a0 * b0 - a2 * b2 * 11;
    assert(a0 * q1 == -(a0 * a1 * b0) + 11 * (a0 * a3 * b2)) by (nonlinear_arith)
        requires q1 == -a1 * b0 + a3 * b2 * 11;
    assert(a0 * q2 == -(a0 * a0 * b2) + a0 * a2 * b0) by (nonlinear_arith)
        requires q2 == -a0 * b2 + a2 * b0;
    assert(a0 * q3 == a0 * a1 * b2 - a0 * a3 * b0) by (nonlinear_arith)
        requires q3 == a1 * b2 - a3 * b0;
    assert(a1 * q0 == a0 * a1 * b0 - 11 * (a1 * a2 * b2)) by (nonlinear_arith)
        requires q0 == a0 * b0 - a2 * b2 * 11;
    assert(a1 * q1 == -(a1 * a1 * b0) + 11 * (a1 * a3 * b2)) by (nonlinear_arith)
        requires q1 == -a1 * b0 + a3 * b2 * 11;
    assert(a1 * q2 == -(a0 * a1 * b2) + a1 * a2 * b0) by (nonlinear_arith)
        requires q2 == -a0 * b2 + a2 * b0;
    assert(a1 * q3 == a1 * a1 * b2 - a1 * a3 * b0) by (nonlinear_arith)
        requires q3 == a1 * b2 - a3 * b0;
    assert(a2 * q0 == a0 * a2 * b0 - 11 * (a2 * a2 * b2)) by (nonlinear_arith)
        requires q0 == a0 * b0 - a2 * b2 * 11;
    assert(a2 * q1 == -(a1 * a2 * b0) + 11 * (a2 * a3 * b2)) by (nonlinear_arith)
        requires q1 == -a1 * b0 + a3 * b2 * 11;
    assert(a2 * q2 == -(a0 * a2 * b2) + a2 * a2 * b0) by (nonlinear_arith)
        requires q2 == -a0 * b2 + a2 * b0;
    assert(a2 * q3 == a1 * a2 * b2 - a2 * a3 * b0) by (nonlinear_arith)
        requires q3 == a1 * b2 - a3 * b0;
    assert(a3 * q0 == a0 * a3 * b0 - 11 * (a2 * a3 * b2)) by (nonlinear_arith)
        requires q0 == a0 * b0 - a2 * b2 * 11;
    assert(a3 * q1 == -(a1 * a3 * b0) + 11 * (a3 * a3 * b2)) by (nonlinear_arith)
        requires q1 == -a1 * b0 + a3 * b2 * 11;
    assert(a3 * q2 == -(a0 * a3 * b2) + a2 * a3 * b0) by (nonlinear_arith)
        requires q2 == -a0 * b2 + a2 * b0;
    assert(a3 * q3 == a1 * a3 * b2 - a3 * a3 * b0) by (nonlinear_arith)
        requires q3 == a1 * b2 - a3 * b0;
    // the two intermediate quantities, expanded
    assert(b0 == a0 * a0 - 22 * (a1 * a3) + 11 * (a2 * a2)) by (nonlinear_arith)
        requires b0 == a0 * a0 - 11 * (2 * a1 * a3 - a2 * a2);
    assert(b2 == 2 * (a0 * a2) - a1 * a1 - 11 * (a3 * a3)) by (nonlinear_arith)
        requires b2 == 2 * a0 * a2 - a1 * a1 - 11 * a3 * a3;
    assert(b0 * b0 == a0 * a0 * b0 - 22 * (a1 * a3 * b0) + 11 * (a2 * a2 * b0)) by (nonlinear_arith)
        requires b0 == a0 * a0 - 22 * (a1 * a3) + 11 * (a2 * a2);
    assert(b2 * b2 == 2 * (a0 * a2 * b2) - a1 * a1 * b2 - 11 * (a3 * a3 * b2)) by (nonlinear_arith)
        requires b2 == 2 * (a0 * a2) - a1 * a1 - 11 * (a3 * a3);
    assert(b0 * b2 == 2 * (a0 * a2 * b0) - a1 * a1 * b0 - 11 * (a3 * a3 * b0)) by (nonlinear_arith)
        requires b2 == 2 * (a0 * a2) - a1 * a1 - 11 * (a3 * a3);
    assert(b0 * b2 == a0 * a0 * b2 - 22 * (a1 * a3 * b2) + 11 * (a2 * a2 * b2)) by (nonlinear_arith)
        requires b0 == a0 * a0 - 22 * (a1 * a3) + 11 * (a2 * a2);
    assert(ext_norm(a) == b0 * b0 - 11 * (b2 * b2)) by (nonlinear_arith)
        requires ext_norm(a) == b0 * b0 - 11 * b2 * b2;
    let m = ext_mul_int(a, q);
    assert(m[0] == a0 * q0 + (a1 * q3 + a2 * q2 + a3 * q1) * 11);
    assert(m[1] == a0 * q1 + a1 * q0 + (a2 * q3 + a3 * q2) * 11);
    assert(m[2] == a0 * q2 + a1 * q1 + a2 * q0 + (a3 * q3) * 11);
    assert(m[3] == a0 * q3 + a1 * q2 + a2 * q1 + a3 * q0);
    assert(m =~= seq![ext_norm(a), 0int, 0int, 0int]);
}

/// The arithmetic of the quartic extension, on arrays of four canonical coordinates.
pub struct FieldExtension;

impl FieldExtension {
    /// Coordinate-wise addition.
    pub fn add(x: [BabyBear; 4], y: [BabyBear; 4]) -> (r: [BabyBear; 4])
        ensures
            all_canonical4(r),
            ext_vals(r) == ext_add_spec(x, y),
    {
        let r = [x[0].add(y[0]), x[1].add(y[1]), x[2].add(y[2]), x[3].add(y[3])];
        assert(ext_vals(r) =~= ext_add_spec(x, y));
        r
    }

    /// Coordinate-wise subtraction.
    pub fn subtract(x: [BabyBear; 4], y: [BabyBear; 4]) -> (r: [BabyBear; 4])
        ensures
            all_canonical4(r),
            ext_vals(r) == ext_sub_spec(x, y),
    {
        let r = [x[0].sub(y[0]), x[1].sub(y[1]), x[2].sub(y[2]), x[3].sub(y[3])];
        assert(ext_vals(r) =~= ext_sub_spec(x, y));
        r
    }

    /// Multiplication modulo `x^4 - 11`.
    pub fn multiply(x: [BabyBear; 4], y: [BabyBear; 4]) -> (r: [BabyBear; 4])
        ensures
            all_canonical4(r),
            ext_vals(r) == ext_mul_spec(x, y),
    {
        let c0 = Self::mul_coeff0(x, y);
        let c1 = Self::mul_coeff1(x, y);
        let c2 = Self::mul_coeff2(x, y);
        let c3 = Self::mul_coeff3(x, y);
        let r = [c0, c1, c2, c3];
        assert(ext_vals(r) =~= ext_mul_spec(x, y));
        r
    }

    fn mul_coeff0(x: [BabyBear; 4], y: [BabyBear; 4]) -> (c: BabyBear)
        ensures
            c.canonical(),
            c.val() == modp(ext_mul_int(ext_vals(x), ext_vals(y))[0]),
    {
        let beta = BabyBear::from_canonical_u32(11);
        let ghost (i0, i1, i2, i3) = (x[0].val(), x[1].val(), x[2].val(), x[3].val());
        let ghost (j0, j1, j2, j3) = (y[0].val(), y[1].val(), y[2].val(), y[3].val());
        let p00 = x[0].mul(y[0]);
        let p13 = x[1].mul(y[3]);
        let p22 = x[2].mul(y[2]);
        let p31 = x[3].mul(y[1]);
        let s0 = p13.add(p22);
        let s1 = s0.add(p31);
        let s2 = s1.mul(beta);
        let c0 = p00.add(s2);
        proof {
            lemma_modp_small(11);
            lemma_modp_basics(i0 * j0);
            lemma_modp_basics(i1 * j3);
            lemma_modp_basics(i2 * j2);
            lemma_modp_basics(i3 * j1);
            cong_add(s0.val(), p13.val(), p22.val(), i1 * j3, i2 * j2);
            cong_add(s1.val(), s0.val(), p31.val(), i1 * j3 + i2 * j2, i3 * j1);
            cong_mul(s2.val(), s1.val(), 11, i1 * j3 + i2 * j2 + i3 * j1, 11);
            cong_add(c0.val(), p00.val(), s2.val(), i0 * j0, (i1 * j3 + i2 * j2 + i3 * j1) * 11);
            lemma_modp_small(c0.val());
        }
        c0
    }

    fn mul_coeff1(x: [BabyBear; 4], y: [BabyBear; 4]) -> (c: BabyBear)
        ensures
            c.canonical(),
            c.val() == modp(ext_mul_int(ext_vals(x), ext_vals(y))[1]),
    {
        let beta = BabyBear::from_canonical_u32(11);
        let ghost (i0, i1, i2, i3) = (x[0].val(), x[1].val(), x[2].val(), x[3].val());
        let ghost (j0, j1, j2, j3) = (y[0].val(), y[1].val(), y[2].val(), y[3].val());
        let p01 = x[0].mul(y[1]);
        let p10 = x[1].mul(y[0]);
        let p23 = x[2].mul(y[3]);
        let p32 = x[3].mul(y[2]);
        let t0 = p01.add(p10);
        let t1 = p23.add(p32);
        let t2 = t1.mul(beta);
        let c1 = t0.add(t2);
        proof {
            lemma_modp_small(11);
            lemma_modp_basics(i0 * j1);
            lemma_modp_basics(i1 * j0);
            lemma_modp_basics(i2 * j3);
            lemma_modp_basics(i3 * j2);
            cong_add(t0.val(), p01.val(), p10.val(), i0 * j1, i1 * j0);
            cong_add(t1.val(), p23.val(), p32.val(), i2 * j3, i3 * j2);
            cong_mul(t2.val(), t1.val(), 11, i2 * j3 + i3 * j2, 11);
            cong_add(c1.val(), t0.val(), t2.val(), i0 * j1 + i1 * j0, (i2 * j3 + i3 * j2) * 11);
            lemma_modp_small(c1.val());
        }
        c1
    }

    fn mul_coeff2(x: [BabyBear; 4], y: [BabyBear; 4]) -> (c: BabyBear)
        ensures
            c.canonical(),
            c.val() == modp(ext_mul_int(ext_vals(x), ext_vals(y))[2]),
    {
        let beta = BabyBear::from_canonical_u32(11);
        let ghost (i0, i1, i2, i3) = (x[0].val(), x[1].val(), x[2].val(), x[3].val());
        let ghost (j0, j1, j2, j3) = (y[0].val(), y[1].val(), y[2].val(), y[3].val());
        let p02 = x[0].mul(y[2]);
        let p11 = x[1].mul(y[1]);
        let p20 = x[2].mul(y[0]);
        let p33 = x[3].mul(y[3]);
        let u0 = p02.add(p11);
        let u1 = u0.add(p20);
        let u2 = p33.mul(beta);
        let c2 = u1.add(u2);
        proof {
            lemma_modp_small(11);
            lemma_modp_basics(i0 * j2);
            lemma_modp_basics(i1 * j1);
            lemma_modp_basics(i2 * j0);
            lemma_modp_basics(i3 * j3);
            cong_add(u0.val(), p02.val(), p11.val(), i0 * j2, i1 * j1);
            cong_add(u1.val(), u0.val(), p20.val(), i0 * j2 + i1 * j1, i2 * j0);
            cong_mul(u2.val(), p33.val(), 11, i3 * j3, 11);
            cong_add(c2.val(), u1.val(), u2.val(), i0 * j2 + i1 * j1 + i2 * j0, (i3 * j3) * 11);
            lemma_modp_small(c2.val());
        }
        c2
    }

    fn mul_coeff3(x: [BabyBear; 4], y: [BabyBear; 4]) -> (c: BabyBear)
        ensures
            c.canonical(),
            c.val() == modp(ext_mul_int(ext_vals(x), ext_vals(y))[3]),
    {
        let ghost (i0, i1, i2, i3) = (x[0].val(), x[1].val(), x[2].val(), x[3].val());
        let ghost (j0, j1, j2, j3) = (y[0].val(), y[1].val(), y[2].val(), y[3].val());
        let p03 = x[0].mul(y[3]);
        let p12 = x[1].mul(y[2]);
        let p21 = x[2].mul(y[1]);
        let p30 = x[3].mul(y[0]);
        let v0 = p03.add(p12);
        let v1 = v0.add(p21);
        let c3 = v1.add(p30);
        proof {
            lemma_modp_basics(i0 * j3);
            lemma_modp_basics(i1 * j2);
            lemma_modp_basics(i2 * j1);
            lemma_modp_basics(i3 * j0);
            cong_add(v0.val(), p03.val(), p12.val(), i0 * j3, i1 * j2);
            cong_add(v1.val(), v0.val(), p21.val(), i0 * j3 + i1 * j2, i2 * j1);
            cong_add(c3.val(), v1.val(), p30.val(), i0 * j3 + i1 * j2 + i2 * j1, i3 * j0);
            lemma_modp_small(c3.val());
        }
        c3
    }

    /// The quantities `b0` and `b2` of the inversion (`a * conj(a) = b0 + b2 x^2`).
    fn inv_b_terms(a: [BabyBear; 4]) -> (res: (BabyBear, BabyBear))
        ensures
            res.0.canonical(),
            res.1.canonical(),
            res.0.val() == modp(inv_b0(ext_vals(a))),
            res.1.val() == modp(inv_b2(ext_vals(a))),
    {
        let (a0, a1, a2, a3) = (a[0], a[1], a[2], a[3]);
        let ghost (i0, i1, i2, i3) = (a0.val(), a1.val(), a2.val(), a3.val());
        let beta = BabyBear::from_canonical_u32(11);
        let two = BabyBear::two();
        // b0 = a0 * a0 - beta * (2 * a1 * a3 - a2 * a2)
        let e0 = a0.mul(a0);
        let e1 = two.mul(a1);
        let e2 = e1.mul(a3);
        let e3 = a2.mul(a2);
        let e4 = e2.sub(e3);
        let e5 = beta.mul(e4);
        let b0 = e0.sub(e5);
        // b2 = 2 * a0 * a2 - a1 * a1 - beta * a3 * a3
        let f0 = two.mul(a0);
        let f1 = f0.mul(a2);
        let f2 = a1.mul(a1);
        let f3 = f1.sub(f2);
        let f4 = beta.mul(a3);
        let f5 = f4.mul(a3);
        let b2 = f3.sub(f5);
        proof {
            lemma_modp_small(11);
            lemma_modp_small(2);
            cong_mul(e0.val(), i0, i0, i0, i0);
            cong_mul(e1.val(), 2, i1, 2, i1);
            cong_mul(e2.val(), e1.val(), i3, 2 * i1, i3);
            cong_mul(e3.val(), i2, i2, i2, i2);
            cong_sub(e4.val(), e2.val(), e3.val(), 2 * i1 * i3, i2 * i2);
            cong_mul(e5.val(), 11, e4.val(), 11, 2 * i1 * i3 - i2 * i2);
            cong_sub(b0.val(), e0.val(), e5.val(), i0 * i0, 11 * (2 * i1 * i3 - i2 * i2));
            cong_mul(f0.val(), 2, i0, 2, i0);
            cong_mul(f1.val(), f0.val(), i2, 2 * i0, i2);
            cong_mul(f2.val(), i1, i1, i1, i1);
            cong_sub(f3.val(), f1.val(), f2.val(), 2 * i0 * i2, i1 * i1);
            cong_mul(f4.val(), 11, i3, 11, i3);
            cong_mul(f5.val(), f4.val(), i3, 11 * i3, i3);
            cong_sub(b2.val(), f3.val(), f5.val(), 2 * i0 * i2 - i1 * i1, 11 * i3 * i3);
            lemma_modp_small(b0.val());
            lemma_modp_small(b2.val());
        }
        (b0, b2)
    }

    /// The adjugate coordinates `[a0 u - 11 a2 w, -a1 u + 11 a3 w, -a0 w + a2 u, a1 w - a3 u]`.
    fn adj_coords(a: [BabyBear; 4], u: BabyBear, w: BabyBear) -> (r: [BabyBear; 4])
        ensures
            all_canonical4(r),
            eqm4(
                ext_vals(r),
                seq![
                    a[0].val() * u.val() - a[2].val() * w.val() * 11,
                    -a[1].val() * u.val() + a[3].val() * w.val() * 11,
                    -a[0].val() * w.val() + a[2].val() * u.val(),
                    a[1].val() * w.val() - a[3].val() * u.val(),
                ],
            ),
    {
        let (a0, a1, a2, a3) = (a[0], a[1], a[2], a[3]);
        let ghost (i0, i1, i2, i3) = (a0.val(), a1.val(), a2.val(), a3.val());
        let ghost (x0, x2) = (u.val(), w.val());
        let beta = BabyBear::from_canonical_u32(11);
        let h0 = a0.mul(u);
        let h1 = a2.mul(w);
        let h2 = h1.mul(beta);
        let r0 = h0.sub(h2);
        let k0 = a1.neg();
        let k1 = k0.mul(u);
        let k2 = a3.mul(w);
        let k3 = k2.mul(beta);
        let r1 = k1.add(k3);
        let l0 = a0.neg();
        let l1 = l0.mul(w);
        let l2 = a2.mul(u);
        let r2 = l1.add(l2);
        let m0 = a1.mul(w);
        let m1 = a3.mul(u);
        let r3 = m0.sub(m1);
        proof {
            lemma_modp_small(11);
            cong_mul(h0.val(), i0, x0, i0, x0);
            cong_mul(h1.val(), i2, x2, i2, x2);
            cong_mul(h2.val(), h1.val(), 11, i2 * x2, 11);
            cong_sub(r0.val(), h0.val(), h2.val(), i0 * x0, i2 * x2 * 11);
            lemma_modp_basics(-i1);
            cong_mul(k1.val(), k0.val(), x0, -i1, x0);
            cong_mul(k2.val(), i3, x2, i3, x2);
            cong_mul(k3.val(), k2.val(), 11, i3 * x2, 11);
            cong_add(r1.val(), k1.val(), k3.val(), -i1 * x0, i3 * x2 * 11);
            lemma_modp_basics(-i0);
            cong_mul(l1.val(), l0.val(), x2, -i0, x2);
            cong_mul(l2.val(), i2, x0, i2, x0);
            cong_add(r2.val(), l1.val(), l2.val(), -i0 * x2, i2 * x0);
            cong_mul(m0.val(), i1, x2, i1, x2);
            cong_mul(m1.val(), i3, x0, i3, x0);
            cong_sub(r3.val(), m0.val(), m1.val(), i1 * x2, i3 * x0);
        }
        [r0, r1, r2, r3]
    }

    /// The norm of `a` down to the base field; it vanishes exactly on the elements without an
    /// inverse.
    pub fn norm(a: [BabyBear; 4]) -> (c: BabyBear)
        ensures
            c.canonical(),
            c.val() == modp(ext_norm(ext_vals(a))),
    {
        let ghost av = ext_vals(a);
        let beta = BabyBear::from_canonical_u32(11);
        let (b0, b2) = Self::inv_b_terms(a);
        let g0 = b0.mul(b0);
        let g1 = beta.mul(b2);
        let g2 = g1.mul(b2);
        let c = g0.sub(g2);
        let ghost nb0 = inv_b0(av);
        let ghost nb2 = inv_b2(av);
        proof {
            lemma_modp_small(11);
            cong_mul(g0.val(), b0.val(), b0.val(), nb0, nb0);
            cong_mul(g1.val(), 11, b2.val(), 11, nb2);
            cong_mul(g2.val(), g1.val(), b2.val(), 11 * nb2, nb2);
            cong_sub(c.val(), g0.val(), g2.val(), nb0 * nb0, 11 * nb2 * nb2);
            lemma_modp_small(c.val());
        }
        c
    }

    /// The multiplicative inverse: the adjugate divided by the norm, which must not vanish.
    pub fn invert(a: [BabyBear; 4]) -> (r: [BabyBear; 4])
        requires
            modp(ext_norm(ext_vals(a))) != 0,
        ensures
            all_canonical4(r),
            ext_mul_spec(a, r) == ext_one(),
            ext_vals(r) == ext_inv(ext_vals(a)),
    {
        let ghost av = ext_vals(a);
        let beta = BabyBear::from_canonical_u32(11);
        let (b0, b2) = Self::inv_b_terms(a);
        // c = b0 * b0 - beta * b2 * b2
        let g0 = b0.mul(b0);
        let g1 = beta.mul(b2);
        let g2 = g1.mul(b2);
        let c = g0.sub(g2);
        let ghost nb0 = inv_b0(av);
        let ghost nb2 = inv_b2(av);
        proof {
            lemma_modp_small(11);
            cong_mul(g0.val(), b0.val(), b0.val(), nb0, nb0);
            cong_mul(g1.val(), 11, b2.val(), 11, nb2);
            cong_mul(g2.val(), g1.val(), b2.val(), 11 * nb2, nb2);
            cong_sub(c.val(), g0.val(), g2.val(), nb0 * nb0, 11 * nb2 * nb2);
            lemma_modp_small(c.val());
        }
        let inv_c = c.inverse();
        let ghost ic = inv_c.val();
        let b0s = b0.mul(inv_c);
        let b2s = b2.mul(inv_c);
        let r = Self::adj_coords(a, b0s, b2s);
        proof {
            lemma_modp_basics(nb0);
            lemma_modp_basics(nb2);
            lemma_eqm_mul(b0.val(), nb0, ic, ic);
            lemma_eqm_mul(b2.val(), nb2, ic, ic);
            Self::lemma_invert_final(av, ext_vals(r), nb0, nb2, b0s.val(), b2s.val(), ic, c.val());
            assert(ext_mul_spec(a, r) =~= ext_one());
            lemma_modp_small(c.val());
            assert(ic == field_inv(modp(ext_norm(av))));
            assert(r[0].canonical() && r[1].canonical() && r[2].canonical() && r[3].canonical());
            lemma_modp_small(r[0].val());
            lemma_modp_small(r[1].val());
            lemma_modp_small(r[2].val());
            lemma_modp_small(r[3].val());
            assert(ext_vals(r) =~= ext_inv(av));
        }
        r
    }

    proof fn lemma_invert_final(
        av: Seq<int>,
        rv: Seq<int>,
        nb0: int,
        nb2: int,
        u: int,
        w: int,
        ic: int,
        c: int,
    )
        requires
            av.len() == 4,
            rv.len() == 4,
            nb0 == inv_b0(av),
            nb2 == inv_b2(av),
            u == modp(nb0 * ic),
            w == modp(nb2 * ic),
            modp(c) == modp(ext_norm(av)),
            modp(c * ic) == 1,
            eqm4(
                rv,
                seq![
                    av[0] * u - av[2] * w * 11,
                    -av[1] * u + av[3] * w * 11,
                    -av[0] * w + av[2] * u,
                    av[1] * w - av[3] * u,
                ],
            ),
        ensures
            reduce4(ext_mul_int(av, rv)) == ext_one(),
            eqm4(rv, ext_scale_int(ext_adj(av), ic)),
    {
        let (i0, i1, i2, i3) = (av[0], av[1], av[2], av[3]);
        let q = ext_adj(av);
        let sq = ext_scale_int(q, ic);
        let x0 = nb0 * ic;
        let x2 = nb2 * ic;
        lemma_modp_basics(x0);
        lemma_modp_basics(x2);
        // substitute u ~ x0 and w ~ x2
        lemma_eqm_mul(i0, i0, u, x0);
        lemma_eqm_mul(i2, i2, w, x2);
        lemma_eqm_mul(i2 * w, i2 * x2, 11, 11);
        lemma_eqm_sub(i0 * u, i0 * x0, i2 * w * 11, i2 * x2 * 11);
        lemma_eqm_mul(-i1, -i1, u, x0);
        lemma_eqm_mul(i3, i3, w, x2);
        lemma_eqm_mul(i3 * w, i3 * x2, 11, 11);
        lemma_eqm_add(-i1 * u, -i1 * x0, i3 * w * 11, i3 * x2 * 11);
        lemma_eqm_mul(-i0, -i0, w, x2);
        lemma_eqm_mul(i2, i2, u, x0);
        lemma_eqm_add(-i0 * w, -i0 * x2, i2 * u, i2 * x0);
        lemma_eqm_mul(i1, i1, w, x2);
        lemma_eqm_mul(i3, i3, u, x0);
        lemma_eqm_sub(i1 * w, i1 * x2, i3 * u, i3 * x0);
        assert(i0 * x0 - i2 * x2 * 11 == sq[0]) by (nonlinear_arith)
            requires
                x0 == nb0 * ic,
                x2 == nb2 * ic,
                sq[0] == (i0 * nb0 - i2 * nb2 * 11) * ic,
        ;
        assert(-i1 * x0 + i3 * x2 * 11 == sq[1]) by (nonlinear_arith)
            requires
                x0 == nb0 * ic,
                x2 == nb2 * ic,
                sq[1] == (-i1 * nb0 + i3 * nb2 * 11) * ic,
        ;
        assert(-i0 * x2 + i2 * x0 == sq[2]) by (nonlinear_arith)
            requires
                x0 == nb0 * ic,
                x2 == nb2 * ic,
                sq[2] == (-i0 * nb2 + i2 * nb0) * ic,
        ;
        assert(i1 * x2 - i3 * x0 == sq[3]) by (nonlinear_arith)
            requires
                x0 == nb0 * ic,
                x2 == nb2 * ic,
                sq[3] == (i1 * nb2 - i3 * nb0) * ic,
        ;
        assert(eqm4(rv, sq));
        lemma_ext_mul_congruent(av, rv, sq);
        lemma_ext_mul_scale(av, q, ic);
        lemma_adjugate(av);
        let prod = ext_mul_int(av, rv);
        let n = ext_norm(av);
        lemma_eqm_mul(n, c, ic, ic);
        assert(0int * ic == 0) by (nonlinear_arith);
        lemma_modp_small(0);
        lemma_modp_small(1);
        assert(modp(prod[0]) == 1);
        assert(modp(prod[1]) == 0);
        assert(modp(prod[2]) == 0);
        assert(modp(prod[3]) == 0);
        assert(reduce4(prod) =~= ext_one());
    }

    /// Division `x / y = x * y^{-1}`.
    pub fn divide(x: [BabyBear; 4], y: [BabyBear; 4]) -> (r: [BabyBear; 4])
        requires
            modp(ext_norm(ext_vals(y))) != 0,
        ensures
            all_canonical4(r),
            ext_vals(r) == ext_div_spec(x, y),
            all_canonical4(x) ==> ext_mul_spec(r, y) == ext_vals(x),
    {
        let yi = Self::invert(y);
        let r = Self::multiply(x, yi);
        proof {
            Self::lemma_quotient_times_divisor(ext_vals(x), ext_vals(y), ext_vals(yi), ext_vals(r));
            if all_canonical4(x) {
                assert(x[0].canonical() && x[1].canonical() && x[2].canonical() && x[3].canonical());
                lemma_modp_small(x[0].val());
                lemma_modp_small(x[1].val());
                lemma_modp_small(x[2].val());
                lemma_modp_small(x[3].val());
                assert(reduce4(ext_vals(x)) =~= ext_vals(x));
            }
        }
        r
    }

    /// `(x * y^-1) * y = x`, coordinates modulo `p`.
    proof fn lemma_quotient_times_divisor(xv: Seq<int>, yv: Seq<int>, yiv: Seq<int>, rv: Seq<int>)
        requires
            xv.len() == 4,
            yv.len() == 4,
            yiv.len() == 4,
            rv.len() == 4,
            reduce4(ext_mul_int(yv, yiv)) == ext_one(),
            rv == reduce4(ext_mul_int(xv, yiv)),
        ensures
            reduce4(ext_mul_int(rv, yv)) == reduce4(xv),
    {
        let xyi = ext_mul_int(xv, yiv);
        assert forall|k: int| 0 <= k < 4 implies modp(#[trigger] rv[k]) == modp(xyi[k]) by {
            lemma_modp_basics(xyi[k]);
        }
        lemma_ext_mul_cong2(rv, xyi, yv, yv);
        lemma_ext_mul_assoc(xv, yiv, yv);
        lemma_ext_mul_comm(yiv, yv);
        let one_raw = ext_mul_int(yv, yiv);
        assert forall|k: int| 0 <= k < 4 implies modp(#[trigger] one_raw[k]) == modp(ext_one()[k]) by {
            lemma_modp_small(ext_one()[k]);
            assert(reduce4(one_raw)[k] == ext_one()[k]);
        }
        lemma_ext_mul_congruent(xv, one_raw, ext_one());
        lemma_ext_mul_one(xv);
        assert(reduce4(ext_mul_int(rv, yv)) =~= reduce4(xv));
    }

    /// Applies the operation of a field-extension opcode.
    pub fn solve(opcode: FieldExtensionOpcode, x: [BabyBear; 4], y: [BabyBear; 4]) -> (r: Option<
        [BabyBear; 4],
    >)
        requires
            opcode is BBE4DIV ==> modp(ext_norm(ext_vals(y))) != 0,
        ensures
            r is Some,
            all_canonical4(r->0),
            opcode is FE4ADD ==> ext_vals(r->0) == ext_add_spec(x, y),
            opcode is FE4SUB ==> ext_vals(r->0) == ext_sub_spec(x, y),
            opcode is BBE4MUL ==> ext_vals(r->0) == ext_mul_spec(x, y),
            opcode is BBE4DIV ==> ext_vals(r->0) == ext_div_spec(x, y),
    {
        match opcode {
            FieldExtensionOpcode::FE4ADD => Some(Self::add(x, y)),
            FieldExtensionOpcode::FE4SUB => Some(Self::subtract(x, y)),
            FieldExtensionOpcode::BBE4MUL => Some(Self::multiply(x, y)),
            FieldExtensionOpcode::BBE4DIV => Some(Self::divide(x, y)),
        }
    }
}

} // verus!
