//! Symbolic expressions of the eDSL over native variables (`SymbolicVar`) and base-field
//! elements (`SymbolicFelt`).
//!
//! Every node carries a digest: four field elements that are updated by the same operation
//! as the expression, coordinate by coordinate, and serve as a cheap fingerprint for hashing
//! and equality.  Expressions over variables fold constants as they are built.
use crate::extension::{
    ext_add_int, ext_inv, ext_mul_int, ext_norm, ext_one, ext_sub_int, ext_vals, reduce4,
    FieldExtension,
};
use crate::field::{all_canonical4, field_inv, modp, pow_spec, BabyBear};
use crate::ir::{Ext, Felt, RVar, Var};
use openvm_stark_backend::p3_field::extension::BinomialExtensionField;
use openvm_stark_backend::p3_field::{BasedVectorSpace, PrimeCharacteristicRing, PrimeField32};
use openvm_stark_sdk::p3_baby_bear::BabyBear as P3BabyBear;
use std::sync::Arc;
use vstd::prelude::*;

verus! {

/// The fingerprint of a symbolic expression: four field elements.
pub type Digest = [BabyBear; 4];

/// The coordinates of a digest as integers.
pub open spec fn dig_vals(d: Digest) -> Seq<int> {
    seq![d[0].val(), d[1].val(), d[2].val(), d[3].val()]
}

/// All four coordinates are canonical.
pub open spec fn dig_canonical(d: Digest) -> bool {
    &&& d[0].canonical()
    &&& d[1].canonical()
    &&& d[2].canonical()
    &&& d[3].canonical()
}

/// Coordinate-wise product over the integers.
pub open spec fn mul4_int(x: Seq<int>, y: Seq<int>) -> Seq<int> {
    seq![x[0] * y[0], x[1] * y[1], x[2] * y[2], x[3] * y[3]]
}

/// Coordinate-wise negation over the integers.
pub open spec fn neg4_int(x: Seq<int>) -> Seq<int> {
    seq![-x[0], -x[1], -x[2], -x[3]]
}

/// Coordinate-wise quotient in the field.
pub open spec fn div4(x: Seq<int>, y: Seq<int>) -> Seq<int> {
    seq![
        modp(x[0] * field_inv(y[0])),
        modp(x[1] * field_inv(y[1])),
        modp(x[2] * field_inv(y[2])),
        modp(x[3] * field_inv(y[3])),
    ]
}

/// The digest of a constant `c`: `c` in every coordinate.
pub open spec fn const_digest(c: int) -> Seq<int> {
    seq![modp(c), modp(c), modp(c), modp(c)]
}

/// The exponents of the generator that give the four fingerprint points.
pub open spec fn element_power(i: int) -> nat {
    if i == 0 {
        1671541671
    } else if i == 1 {
        1254988180
    } else if i == 2 {
        442438744
    } else {
        1716490559
    }
}

/// The multiplicative generator of the BabyBear field.
pub const BABY_BEAR_GENERATOR: u32 = 31;

/// The `i`-th fingerprint point `g^{e_i}`.
pub open spec fn element_spec(i: int) -> int {
    modp(pow_spec(31, element_power(i)))
}

/// The `i`-th coordinate of the digest of variable `id`: `1 / (g^{e_i} + id)`, or `1` when that
/// sum is zero.
pub open spec fn digest_id_coord(i: int, id: u32) -> int {
    let s = modp(element_spec(i) + id);
    if s == 0 {
        1
    } else {
        field_inv(s)
    }
}

/// The digest of variable `id`.
pub open spec fn digest_id_spec(id: u32) -> Seq<int> {
    seq![
        digest_id_coord(0, id),
        digest_id_coord(1, id),
        digest_id_coord(2, id),
        digest_id_coord(3, id),
    ]
}

/// The four fingerprint points `g^{e_i}`.
pub fn elements() -> (r: Digest)
    ensures
        dig_canonical(r),
        forall|i: int| 0 <= i < 4 ==> #[trigger] dig_vals(r)[i] == element_spec(i),
{
    let g = BabyBear { v: BABY_BEAR_GENERATOR };
    let r = [
        g.exp_u64(1671541671),
        g.exp_u64(1254988180),
        g.exp_u64(442438744),
        g.exp_u64(1716490559),
    ];
    r
}

/// `1 / (e + id)`, or `1` when `e + id` is zero.
fn id_coord(e: BabyBear, id: u32) -> (r: BabyBear)
    ensures
        r.canonical(),
        r.val() == (if modp(e.val() + id) == 0 {
            1
        } else {
            field_inv(modp(e.val() + id))
        }),
{
    let w = BabyBear::from_wrapped_u32(id);
    let s = e.add(w);
    proof {
        crate::field::lemma_modp_basics(id as int);
        crate::field::lemma_eqm_add(e.val(), e.val(), w.val(), id as int);
    }
    if s.is_zero() {
        BabyBear::one()
    } else {
        proof {
            crate::field::lemma_modp_basics(e.val() + w.val());
            crate::field::lemma_modp_small(s.val());
        }
        s.inverse()
    }
}

/// The digest of the variable with identifier `id`.
pub fn digest_id(id: u32) -> (r: Digest)
    ensures
        dig_canonical(r),
        dig_vals(r) == digest_id_spec(id),
{
    let el = elements();
    proof {
        assert(dig_vals(el)[0] == element_spec(0));
        assert(dig_vals(el)[1] == element_spec(1));
        assert(dig_vals(el)[2] == element_spec(2));
        assert(dig_vals(el)[3] == element_spec(3));
    }
    let r = [id_coord(el[0], id), id_coord(el[1], id), id_coord(el[2], id), id_coord(el[3], id)];
    proof {
        assert(dig_vals(r) =~= digest_id_spec(id));
    }
    r
}

/// The digest of a constant `c`: `c` in every coordinate.
pub fn digest_const(c: BabyBear) -> (r: Digest)
    ensures
        r[0] == c,
        r[1] == c,
        r[2] == c,
        r[3] == c,
{
    [c, c, c, c]
}

/// Coordinate-wise sum of digests.
pub fn digest_add(a: Digest, b: Digest) -> (r: Digest)
    ensures
        dig_canonical(r),
        dig_vals(r) == reduce4(ext_add_int(dig_vals(a), dig_vals(b))),
{
    let r = [a[0].add(b[0]), a[1].add(b[1]), a[2].add(b[2]), a[3].add(b[3])];
    proof {
        assert(dig_vals(r) =~= reduce4(ext_add_int(dig_vals(a), dig_vals(b))));
    }
    r
}

/// Coordinate-wise difference of digests.
pub fn digest_sub(a: Digest, b: Digest) -> (r: Digest)
    ensures
        dig_canonical(r),
        dig_vals(r) == reduce4(ext_sub_int(dig_vals(a), dig_vals(b))),
{
    let r = [a[0].sub(b[0]), a[1].sub(b[1]), a[2].sub(b[2]), a[3].sub(b[3])];
    proof {
        assert(dig_vals(r) =~= reduce4(ext_sub_int(dig_vals(a), dig_vals(b))));
    }
    r
}

/// Coordinate-wise product of digests.
pub fn digest_mul(a: Digest, b: Digest) -> (r: Digest)
    ensures
        dig_canonical(r),
        dig_vals(r) == reduce4(mul4_int(dig_vals(a), dig_vals(b))),
{
    let r = [a[0].mul(b[0]), a[1].mul(b[1]), a[2].mul(b[2]), a[3].mul(b[3])];
    proof {
        assert(dig_vals(r) =~= reduce4(mul4_int(dig_vals(a), dig_vals(b))));
    }
    r
}

/// Coordinate-wise negation of a digest.
pub fn digest_neg(a: Digest) -> (r: Digest)
    ensures
        dig_canonical(r),
        dig_vals(r) == reduce4(neg4_int(dig_vals(a))),
{
    let r = [a[0].neg(), a[1].neg(), a[2].neg(), a[3].neg()];
    proof {
        assert(dig_vals(r) =~= reduce4(neg4_int(dig_vals(a))));
    }
    r
}

/// No coordinate of the digest is zero in the field.
pub open spec fn dig_invertible(d: Digest) -> bool {
    &&& modp(d[0].val()) != 0
    &&& modp(d[1].val()) != 0
    &&& modp(d[2].val()) != 0
    &&& modp(d[3].val()) != 0
}

/// Coordinate-wise quotient of digests; no coordinate of `b` may be zero.
pub fn div_digests(a: Digest, b: Digest) -> (r: Digest)
    requires
        dig_invertible(b),
    ensures
        dig_canonical(r),
        dig_vals(r) == div4(dig_vals(a), dig_vals(b)),
{
    let r = [
        a[0].mul(b[0].inverse()),
        a[1].mul(b[1].inverse()),
        a[2].mul(b[2].inverse()),
        a[3].mul(b[3].inverse()),
    ];
    proof {
        assert(dig_vals(r) =~= div4(dig_vals(a), dig_vals(b)));
    }
    r
}

/// A symbolic expression over native variables.  Constants are folded as the expression is
/// built, so that a binary node always has at least one non-constant operand.
#[derive(Clone, Debug)]
pub enum SymbolicVar {
    Const(BabyBear, Digest),
    Val(Var, Digest),
    Add(Arc<SymbolicVar>, Arc<SymbolicVar>, Digest),
    Mul(Arc<SymbolicVar>, Arc<SymbolicVar>, Digest),
    Sub(Arc<SymbolicVar>, Arc<SymbolicVar>, Digest),
    Neg(Arc<SymbolicVar>, Digest),
}

impl SymbolicVar {
    /// The digest stored at the root.
    pub open spec fn digest_of(self) -> Digest {
        match self {
            SymbolicVar::Const(_, d) => d,
            SymbolicVar::Val(_, d) => d,
            SymbolicVar::Add(_, _, d) => d,
            SymbolicVar::Mul(_, _, d) => d,
            SymbolicVar::Sub(_, _, d) => d,
            SymbolicVar::Neg(_, d) => d,
        }
    }

    /// The value of the expression in the field, given the values of the variables.
    pub open spec fn eval(&self, env: spec_fn(u32) -> int) -> int
        decreases self,
    {
        match self {
            SymbolicVar::Const(c, _) => modp(c.val()),
            SymbolicVar::Val(v, _) => modp(env(v.0)),
            SymbolicVar::Add(a, b, _) => modp((*a).eval(env) + (*b).eval(env)),
            SymbolicVar::Mul(a, b, _) => modp((*a).eval(env) * (*b).eval(env)),
            SymbolicVar::Sub(a, b, _) => modp((*a).eval(env) - (*b).eval(env)),
            SymbolicVar::Neg(a, _) => modp(-(*a).eval(env)),
        }
    }

    /// Well-formed: every digest is canonical, and a constant carries itself as its digest.
    pub open spec fn wf(&self) -> bool
        decreases self,
    {
        &&& dig_canonical(self.digest_of())
        &&& match self {
            SymbolicVar::Const(c, d) => c.canonical() && d[0] == c && d[1] == c && d[2] == c
                && d[3] == c,
            SymbolicVar::Val(_, _) => true,
            SymbolicVar::Add(a, b, _) => (*a).wf() && (*b).wf(),
            SymbolicVar::Mul(a, b, _) => (*a).wf() && (*b).wf(),
            SymbolicVar::Sub(a, b, _) => (*a).wf() && (*b).wf(),
            SymbolicVar::Neg(a, _) => (*a).wf(),
        }
    }

    /// The expression is the constant zero.
    pub open spec fn is_zero_const(self) -> bool {
        self is Const && self->Const_0.v == 0
    }

    /// The expression is the constant one.
    pub open spec fn is_one_const(self) -> bool {
        self is Const && self->Const_0.v == 1
    }

    /// The digest stored at the root.
    pub fn digest(&self) -> (r: Digest)
        ensures
            r == self.digest_of(),
    {
        match self {
            SymbolicVar::Const(_, d) => *d,
            SymbolicVar::Val(_, d) => *d,
            SymbolicVar::Add(_, _, d) => *d,
            SymbolicVar::Mul(_, _, d) => *d,
            SymbolicVar::Sub(_, _, d) => *d,
            SymbolicVar::Neg(_, d) => *d,
        }
    }
}

/// `r` is what `a + b` builds: constants are added, a zero constant operand yields the other
/// operand, and otherwise an addition node is made.
pub open spec fn folded_add(a: SymbolicVar, b: SymbolicVar, r: SymbolicVar) -> bool {
    let d = reduce4(ext_add_int(dig_vals(a.digest_of()), dig_vals(b.digest_of())));
    if a is Const && b is Const {
        r matches SymbolicVar::Const(c, rd) && c.canonical() && c.val() == modp(
            a->Const_0.val() + b->Const_0.val(),
        ) && dig_canonical(rd) && dig_vals(rd) == d
    } else if a.is_zero_const() {
        r == b
    } else if b.is_zero_const() {
        r == a
    } else {
        r matches SymbolicVar::Add(x, y, rd) && *x == a && *y == b && dig_canonical(rd)
            && dig_vals(rd) == d
    }
}

/// `r` is what `a * b` builds: constants are multiplied, a zero constant operand yields that
/// zero, a unit constant operand yields the other operand, and otherwise a product node is made.
pub open spec fn folded_mul(a: SymbolicVar, b: SymbolicVar, r: SymbolicVar) -> bool {
    let d = reduce4(mul4_int(dig_vals(a.digest_of()), dig_vals(b.digest_of())));
    if a is Const && b is Const {
        r matches SymbolicVar::Const(c, rd) && c.canonical() && c.val() == modp(
            a->Const_0.val() * b->Const_0.val(),
        ) && dig_canonical(rd) && dig_vals(rd) == d
    } else if a.is_zero_const() {
        r == a
    } else if a.is_one_const() {
        r == b
    } else if b.is_zero_const() {
        r == b
    } else if b.is_one_const() {
        r == a
    } else {
        r matches SymbolicVar::Mul(x, y, rd) && *x == a && *y == b && dig_canonical(rd)
            && dig_vals(rd) == d
    }
}

/// `r` is what `a - b` builds: constants are subtracted, a zero constant on the left yields the
/// right operand unchanged, a zero constant on the right yields the left operand, and otherwise
/// a difference node is made.
pub open spec fn folded_sub(a: SymbolicVar, b: SymbolicVar, r: SymbolicVar) -> bool {
    let d = reduce4(ext_sub_int(dig_vals(a.digest_of()), dig_vals(b.digest_of())));
    if a is Const && b is Const {
        r matches SymbolicVar::Const(c, rd) && c.canonical() && c.val() == modp(
            a->Const_0.val() - b->Const_0.val(),
        ) && dig_canonical(rd) && dig_vals(rd) == d
    } else if a.is_zero_const() {
        r == b
    } else if b.is_zero_const() {
        r == a
    } else {
        r matches SymbolicVar::Sub(x, y, rd) && *x == a && *y == b && dig_canonical(rd)
            && dig_vals(rd) == d
    }
}

/// `r` is what `-a` builds: a constant is negated, anything else gets a negation node.
pub open spec fn folded_neg(a: SymbolicVar, r: SymbolicVar) -> bool {
    let d = reduce4(neg4_int(dig_vals(a.digest_of())));
    if a is Const {
        r matches SymbolicVar::Const(c, rd) && c.canonical() && c.val() == modp(
            -a->Const_0.val(),
        ) && dig_canonical(rd) && dig_vals(rd) == d
    } else {
        r matches SymbolicVar::Neg(x, rd) && *x == a && dig_canonical(rd) && dig_vals(rd) == d
    }
}

impl SymbolicVar {
    /// The constant `n`.
    pub fn from_field(n: BabyBear) -> (r: SymbolicVar)
        ensures
            r matches SymbolicVar::Const(c, d) && c == n && d[0] == n && d[1] == n && d[2] == n
                && d[3] == n,
    {
        SymbolicVar::Const(n, digest_const(n))
    }

    /// The variable `v`, with the digest of its identifier.
    pub fn from_var(v: Var) -> (r: SymbolicVar)
        ensures
            r matches SymbolicVar::Val(w, d) && w == v && dig_canonical(d) && dig_vals(d)
                == digest_id_spec(v.0),
    {
        SymbolicVar::Val(v, digest_id(v.0))
    }

    /// A right value as an expression.
    pub fn from_rvar(v: RVar) -> (r: SymbolicVar)
        ensures
            v matches RVar::Const(n) ==> (r matches SymbolicVar::Const(c, d) && c == n && d[0]
                == n && d[1] == n && d[2] == n && d[3] == n),
            v matches RVar::Val(x) ==> (r matches SymbolicVar::Val(w, d) && w == x
                && dig_canonical(d) && dig_vals(d) == digest_id_spec(x.0)),
    {
        match v {
            RVar::Const(n) => SymbolicVar::from_field(n),
            RVar::Val(x) => SymbolicVar::from_var(x),
        }
    }

    /// The constant zero.
    pub fn zero() -> (r: SymbolicVar)
        ensures
            r.is_zero_const(),
            r.wf(),
    {
        SymbolicVar::from_field(BabyBear::zero())
    }

    /// The constant one.
    pub fn one() -> (r: SymbolicVar)
        ensures
            r.is_one_const(),
            r.wf(),
    {
        SymbolicVar::from_field(BabyBear::one())
    }

    /// `self + rhs`, folding constants.
    pub fn add(self, rhs: SymbolicVar) -> (r: SymbolicVar)
        ensures
            folded_add(self, rhs, r),
    {
        let digest = digest_add(self.digest(), rhs.digest());
        match (&self, &rhs) {
            (SymbolicVar::Const(a, _), SymbolicVar::Const(b, _)) => {
                return SymbolicVar::Const(a.add(*b), digest);
            },
            (SymbolicVar::Const(a, _), _) => {
                if a.is_zero() {
                    return rhs;
                }
            },
            (_, SymbolicVar::Const(b, _)) => {
                if b.is_zero() {
                    return self;
                }
            },
            _ => {},
        }
        SymbolicVar::Add(Arc::new(self), Arc::new(rhs), digest)
    }

    /// `self * rhs`, folding constants.
    pub fn mul(self, rhs: SymbolicVar) -> (r: SymbolicVar)
        ensures
            folded_mul(self, rhs, r),
    {
        let digest = digest_mul(self.digest(), rhs.digest());
        match (&self, &rhs) {
            (SymbolicVar::Const(a, _), SymbolicVar::Const(b, _)) => {
                return SymbolicVar::Const(a.mul(*b), digest);
            },
            (SymbolicVar::Const(a, _), _) => {
                if a.is_zero() {
                    return self;
                }
                if a.is_one() {
                    return rhs;
                }
            },
            (_, SymbolicVar::Const(b, _)) => {
                if b.is_zero() {
                    return rhs;
                }
                if b.is_one() {
                    return self;
                }
            },
            _ => {},
        }
        SymbolicVar::Mul(Arc::new(self), Arc::new(rhs), digest)
    }

    /// `self - rhs`, folding constants.
    pub fn sub(self, rhs: SymbolicVar) -> (r: SymbolicVar)
        ensures
            folded_sub(self, rhs, r),
    {
        let digest = digest_sub(self.digest(), rhs.digest());
        match (&self, &rhs) {
            (SymbolicVar::Const(a, _), SymbolicVar::Const(b, _)) => {
                return SymbolicVar::Const(a.sub(*b), digest);
            },
            (SymbolicVar::Const(a, _), _) => {
                if a.is_zero() {
                    return rhs;
                }
            },
            (_, SymbolicVar::Const(b, _)) => {
                if b.is_zero() {
                    return self;
                }
            },
            _ => {},
        }
        SymbolicVar::Sub(Arc::new(self), Arc::new(rhs), digest)
    }

    /// `-self`, folding a constant.
    pub fn neg(self) -> (r: SymbolicVar)
        ensures
            folded_neg(self, r),
    {
        let digest = digest_neg(self.digest());
        match &self {
            SymbolicVar::Const(c, _) => SymbolicVar::Const(c.neg(), digest),
            _ => SymbolicVar::Neg(Arc::new(self), digest),
        }
    }
}

/// A symbolic expression over base-field elements.  No constants are folded.
#[derive(Clone, Debug)]
pub enum SymbolicFelt {
    Const(BabyBear, Digest),
    Val(Felt, Digest),
    Add(Arc<SymbolicFelt>, Arc<SymbolicFelt>, Digest),
    Mul(Arc<SymbolicFelt>, Arc<SymbolicFelt>, Digest),
    Sub(Arc<SymbolicFelt>, Arc<SymbolicFelt>, Digest),
    Div(Arc<SymbolicFelt>, Arc<SymbolicFelt>, Digest),
    Neg(Arc<SymbolicFelt>, Digest),
}

impl SymbolicFelt {
    /// The digest stored at the root.
    pub open spec fn digest_of(self) -> Digest {
        match self {
            SymbolicFelt::Const(_, d) => d,
            SymbolicFelt::Val(_, d) => d,
            SymbolicFelt::Add(_, _, d) => d,
            SymbolicFelt::Mul(_, _, d) => d,
            SymbolicFelt::Sub(_, _, d) => d,
            SymbolicFelt::Div(_, _, d) => d,
            SymbolicFelt::Neg(_, d) => d,
        }
    }

    /// The value of the expression in the field, given the values of the felts.
    pub open spec fn eval(&self, env: spec_fn(u32) -> int) -> int
        decreases self,
    {
        match self {
            SymbolicFelt::Const(c, _) => modp(c.val()),
            SymbolicFelt::Val(v, _) => modp(env(v.0)),
            SymbolicFelt::Add(a, b, _) => modp((*a).eval(env) + (*b).eval(env)),
            SymbolicFelt::Mul(a, b, _) => modp((*a).eval(env) * (*b).eval(env)),
            SymbolicFelt::Sub(a, b, _) => modp((*a).eval(env) - (*b).eval(env)),
            SymbolicFelt::Div(a, b, _) => modp((*a).eval(env) * field_inv((*b).eval(env))),
            SymbolicFelt::Neg(a, _) => modp(-(*a).eval(env)),
        }
    }

    /// The digest stored at the root.
    pub fn digest(&self) -> (r: Digest)
        ensures
            r == self.digest_of(),
    {
        match self {
            SymbolicFelt::Const(_, d) => *d,
            SymbolicFelt::Val(_, d) => *d,
            SymbolicFelt::Add(_, _, d) => *d,
            SymbolicFelt::Mul(_, _, d) => *d,
            SymbolicFelt::Sub(_, _, d) => *d,
            SymbolicFelt::Div(_, _, d) => *d,
            SymbolicFelt::Neg(_, d) => *d,
        }
    }

    /// The constant `f`.
    pub fn from_field(f: BabyBear) -> (r: SymbolicFelt)
        ensures
            r matches SymbolicFelt::Const(c, d) && c == f && d[0] == f && d[1] == f && d[2] == f
                && d[3] == f,
    {
        SymbolicFelt::Const(f, digest_const(f))
    }

    /// The felt `v`, with the digest of its identifier.
    pub fn from_felt(v: Felt) -> (r: SymbolicFelt)
        ensures
            r matches SymbolicFelt::Val(w, d) && w == v && dig_canonical(d) && dig_vals(d)
                == digest_id_spec(v.0),
    {
        SymbolicFelt::Val(v, digest_id(v.0))
    }

    /// `self + rhs`.
    pub fn add(self, rhs: SymbolicFelt) -> (r: SymbolicFelt)
        ensures
            r matches SymbolicFelt::Add(x, y, d) && *x == self && *y == rhs && dig_canonical(d)
                && dig_vals(d) == reduce4(
                ext_add_int(dig_vals(self.digest_of()), dig_vals(rhs.digest_of())),
            ),
    {
        let digest = digest_add(self.digest(), rhs.digest());
        SymbolicFelt::Add(Arc::new(self), Arc::new(rhs), digest)
    }

    /// `self * rhs`.
    pub fn mul(self, rhs: SymbolicFelt) -> (r: SymbolicFelt)
        ensures
            r matches SymbolicFelt::Mul(x, y, d) && *x == self && *y == rhs && dig_canonical(d)
                && dig_vals(d) == reduce4(
                mul4_int(dig_vals(self.digest_of()), dig_vals(rhs.digest_of())),
            ),
    {
        let digest = digest_mul(self.digest(), rhs.digest());
        SymbolicFelt::Mul(Arc::new(self), Arc::new(rhs), digest)
    }

    /// `self - rhs`.
    pub fn sub(self, rhs: SymbolicFelt) -> (r: SymbolicFelt)
        ensures
            r matches SymbolicFelt::Sub(x, y, d) && *x == self && *y == rhs && dig_canonical(d)
                && dig_vals(d) == reduce4(
                ext_sub_int(dig_vals(self.digest_of()), dig_vals(rhs.digest_of())),
            ),
    {
        let digest = digest_sub(self.digest(), rhs.digest());
        SymbolicFelt::Sub(Arc::new(self), Arc::new(rhs), digest)
    }

    /// `self / rhs`.  The digests are divided coordinate by coordinate, so no coordinate of the
    /// divisor's digest may be zero.
    pub fn div(self, rhs: SymbolicFelt) -> (r: SymbolicFelt)
        requires
            dig_invertible(rhs.digest_of()),
        ensures
            r matches SymbolicFelt::Div(x, y, d) && *x == self && *y == rhs && dig_canonical(d)
                && dig_vals(d) == div4(dig_vals(self.digest_of()), dig_vals(rhs.digest_of())),
    {
        let digest = div_digests(self.digest(), rhs.digest());
        SymbolicFelt::Div(Arc::new(self), Arc::new(rhs), digest)
    }

    /// `-self`.
    pub fn neg(self) -> (r: SymbolicFelt)
        ensures
            r matches SymbolicFelt::Neg(x, d) && *x == self && dig_canonical(d) && dig_vals(d)
                == reduce4(neg4_int(dig_vals(self.digest_of()))),
    {
        let digest = digest_neg(self.digest());
        SymbolicFelt::Neg(Arc::new(self), digest)
    }
}

// ---------------------------------------------------------------------------------------------
// Expressions over extension elements.
// ---------------------------------------------------------------------------------------------
/// The fingerprint of an extension expression: four extension elements.
pub type ExtDigest = [[BabyBear; 4]; 4];

/// The coordinates of an extension digest.
pub open spec fn edig(d: ExtDigest) -> Seq<Seq<int>> {
    seq![ext_vals(d[0]), ext_vals(d[1]), ext_vals(d[2]), ext_vals(d[3])]
}

/// Applies an operation on extension elements to each of four pairs.
pub open spec fn edig_map2(
    x: Seq<Seq<int>>,
    y: Seq<Seq<int>>,
    f: spec_fn(Seq<int>, Seq<int>) -> Seq<int>,
) -> Seq<Seq<int>> {
    seq![f(x[0], y[0]), f(x[1], y[1]), f(x[2], y[2]), f(x[3], y[3])]
}

/// The sum of extension elements.
pub open spec fn ext_sum(x: Seq<int>, y: Seq<int>) -> Seq<int> {
    reduce4(ext_add_int(x, y))
}

/// The difference of extension elements.
pub open spec fn ext_diff(x: Seq<int>, y: Seq<int>) -> Seq<int> {
    reduce4(ext_sub_int(x, y))
}

/// The product of extension elements.
pub open spec fn ext_prod(x: Seq<int>, y: Seq<int>) -> Seq<int> {
    reduce4(ext_mul_int(x, y))
}

/// The quotient of extension elements.
pub open spec fn ext_quot(x: Seq<int>, y: Seq<int>) -> Seq<int> {
    reduce4(ext_mul_int(x, ext_inv(y)))
}

/// The power `b^e` of an extension element: the `e`-fold product.
pub open spec fn ext_pow(b: Seq<int>, e: nat) -> Seq<int>
    decreases e,
{
    if e == 0 {
        ext_one()
    } else {
        reduce4(ext_mul_int(b, ext_pow(b, (e - 1) as nat)))
    }
}

/// Calls `exp_u64` on `BinomialExtensionField<BabyBear, 4>` of Plonky3.  Claimed: the
/// coordinates of the result are canonical and are those of the `e`-fold product of `b`.
#[verifier::external_body]
fn ext_exp_u64(b: [BabyBear; 4], e: u64) -> (r: [BabyBear; 4])
    ensures
        all_canonical4(r),
        ext_vals(r) == ext_pow(ext_vals(b), e as nat),
{
    let x = BinomialExtensionField::<P3BabyBear, 4>::new(
        [P3BabyBear::new(b[0].v), P3BabyBear::new(b[1].v), P3BabyBear::new(b[2].v), P3BabyBear::new(b[3].v)],
    );
    let c: [P3BabyBear; 4] = x.exp_u64(e).as_basis_coefficients_slice().try_into().unwrap();
    c.map(|v| BabyBear { v: v.as_canonical_u32() })
}

/// The exponents of the extension generator that give the four fingerprint points.
pub open spec fn ext_element_power(i: int) -> nat {
    if i == 0 {
        1021539871
    } else if i == 1 {
        1430550064
    } else if i == 2 {
        447478069
    } else {
        1248903325
    }
}

/// The `i`-th extension fingerprint point `h^{e_i}`, with `h = 8 + x` the generator of the
/// extension's multiplicative group.
pub open spec fn ext_element_spec(i: int) -> Seq<int> {
    ext_pow(seq![8int, 1, 0, 0], ext_element_power(i))
}

/// The four extension fingerprint points.
pub fn ext_elements() -> (r: ExtDigest)
    ensures
        forall|i: int| 0 <= i < 4 ==> all_canonical4(#[trigger] r[i]),
        edig(r) == seq![
            ext_element_spec(0),
            ext_element_spec(1),
            ext_element_spec(2),
            ext_element_spec(3),
        ],
{
    let g = [BabyBear { v: 8 }, BabyBear::one(), BabyBear::zero(), BabyBear::zero()];
    proof {
        assert(ext_vals(g) =~= seq![8int, 1, 0, 0]);
    }
    let r = [
        ext_exp_u64(g, 1021539871),
        ext_exp_u64(g, 1430550064),
        ext_exp_u64(g, 447478069),
        ext_exp_u64(g, 1248903325),
    ];
    proof {
        assert(edig(r) =~= seq![
            ext_element_spec(0),
            ext_element_spec(1),
            ext_element_spec(2),
            ext_element_spec(3),
        ]);
    }
    r
}

/// The `i`-th coordinate of the digest of extension variable `id`: the inverse of
/// `h^{e_i} + id`, or one where that sum has no inverse (its norm vanishes).
pub open spec fn ext_id_coord(i: int, id: u32) -> Seq<int> {
    let s = ext_sum(ext_element_spec(i), seq![modp(id as int), 0, 0, 0]);
    if modp(ext_norm(s)) == 0 {
        ext_one()
    } else {
        ext_inv(s)
    }
}

/// The digest of extension variable `id`.
pub open spec fn digest_id_ext_spec(id: u32) -> Seq<Seq<int>> {
    seq![ext_id_coord(0, id), ext_id_coord(1, id), ext_id_coord(2, id), ext_id_coord(3, id)]
}

fn ext_id_coord_exec(e: [BabyBear; 4], id: u32) -> (r: [BabyBear; 4])
    ensures
        all_canonical4(r),
        ({
            let s = ext_sum(ext_vals(e), seq![modp(id as int), 0, 0, 0]);
            ext_vals(r) == if modp(ext_norm(s)) == 0 {
                ext_one()
            } else {
                ext_inv(s)
            }
        }),
{
    let w = [BabyBear::from_wrapped_u32(id), BabyBear::zero(), BabyBear::zero(), BabyBear::zero()];
    let s = FieldExtension::add(e, w);
    proof {
        assert(ext_vals(w) =~= seq![modp(id as int), 0, 0, 0]);
        crate::field::lemma_modp_small(s[0].val());
        crate::field::lemma_modp_small(s[1].val());
        crate::field::lemma_modp_small(s[2].val());
        crate::field::lemma_modp_small(s[3].val());
        assert(s[0].canonical() && s[1].canonical() && s[2].canonical() && s[3].canonical());
        assert(reduce4(ext_vals(s)) =~= ext_vals(s));
    }
    let n = FieldExtension::norm(s);
    if n.v == 0 {
        proof {
            crate::field::lemma_modp_small(0);
        }
        let one = [BabyBear::one(), BabyBear::zero(), BabyBear::zero(), BabyBear::zero()];
        assert(ext_vals(one) =~= ext_one());
        one
    } else {
        FieldExtension::invert(s)
    }
}

/// The digest of the extension variable with identifier `id`.
pub fn digest_id_ext(id: u32) -> (r: ExtDigest)
    ensures
        edig(r) == digest_id_ext_spec(id),
{
    let el = ext_elements();
    let r = [
        ext_id_coord_exec(el[0], id),
        ext_id_coord_exec(el[1], id),
        ext_id_coord_exec(el[2], id),
        ext_id_coord_exec(el[3], id),
    ];
    proof {
        assert(edig(el)[0] == ext_element_spec(0));
        assert(edig(el)[1] == ext_element_spec(1));
        assert(edig(el)[2] == ext_element_spec(2));
        assert(edig(el)[3] == ext_element_spec(3));
        assert(edig(r) =~= digest_id_ext_spec(id));
    }
    r
}

/// A base-field digest embedded in the extension, coordinate by coordinate.
pub open spec fn dig_from_base(d: Seq<int>) -> Seq<Seq<int>> {
    seq![
        seq![d[0], 0, 0, 0],
        seq![d[1], 0, 0, 0],
        seq![d[2], 0, 0, 0],
        seq![d[3], 0, 0, 0],
    ]
}

/// Embeds a base-field digest in the extension.
pub fn digest_from_base(d: Digest) -> (r: ExtDigest)
    ensures
        edig(r) == dig_from_base(dig_vals(d)),
{
    let z = BabyBear::zero();
    let r = [[d[0], z, z, z], [d[1], z, z, z], [d[2], z, z, z], [d[3], z, z, z]];
    proof {
        assert(edig(r) =~= dig_from_base(dig_vals(d)));
    }
    r
}

/// Coordinate-wise sum of extension digests.
pub fn ext_digest_add(a: ExtDigest, b: ExtDigest) -> (r: ExtDigest)
    ensures
        edig(r) == edig_map2(edig(a), edig(b), |x: Seq<int>, y: Seq<int>| ext_sum(x, y)),
{
    let r = [
        FieldExtension::add(a[0], b[0]),
        FieldExtension::add(a[1], b[1]),
        FieldExtension::add(a[2], b[2]),
        FieldExtension::add(a[3], b[3]),
    ];
    proof {
        assert(edig(r) =~= edig_map2(edig(a), edig(b), |x: Seq<int>, y: Seq<int>| ext_sum(x, y)));
    }
    r
}

/// Coordinate-wise difference of extension digests.
pub fn ext_digest_sub(a: ExtDigest, b: ExtDigest) -> (r: ExtDigest)
    ensures
        edig(r) == edig_map2(edig(a), edig(b), |x: Seq<int>, y: Seq<int>| ext_diff(x, y)),
{
    let r = [
        FieldExtension::subtract(a[0], b[0]),
        FieldExtension::subtract(a[1], b[1]),
        FieldExtension::subtract(a[2], b[2]),
        FieldExtension::subtract(a[3], b[3]),
    ];
    proof {
        assert(edig(r) =~= edig_map2(edig(a), edig(b), |x: Seq<int>, y: Seq<int>| ext_diff(x, y)));
    }
    r
}

/// Coordinate-wise product of extension digests.
pub fn ext_digest_mul(a: ExtDigest, b: ExtDigest) -> (r: ExtDigest)
    ensures
        edig(r) == edig_map2(edig(a), edig(b), |x: Seq<int>, y: Seq<int>| ext_prod(x, y)),
{
    let r = [
        FieldExtension::multiply(a[0], b[0]),
        FieldExtension::multiply(a[1], b[1]),
        FieldExtension::multiply(a[2], b[2]),
        FieldExtension::multiply(a[3], b[3]),
    ];
    proof {
        assert(edig(r) =~= edig_map2(edig(a), edig(b), |x: Seq<int>, y: Seq<int>| ext_prod(x, y)));
    }
    r
}

/// Every coordinate of an extension digest is invertible.
pub open spec fn edig_invertible(d: ExtDigest) -> bool {
    &&& modp(ext_norm(ext_vals(d[0]))) != 0
    &&& modp(ext_norm(ext_vals(d[1]))) != 0
    &&& modp(ext_norm(ext_vals(d[2]))) != 0
    &&& modp(ext_norm(ext_vals(d[3]))) != 0
}

/// Coordinate-wise quotient of extension digests; every coordinate of `b` must have an
/// inverse.
pub fn ext_digest_div(a: ExtDigest, b: ExtDigest) -> (r: ExtDigest)
    requires
        edig_invertible(b),
    ensures
        edig(r) == edig_map2(edig(a), edig(b), |x: Seq<int>, y: Seq<int>| ext_quot(x, y)),
{
    let r = [
        FieldExtension::divide(a[0], b[0]),
        FieldExtension::divide(a[1], b[1]),
        FieldExtension::divide(a[2], b[2]),
        FieldExtension::divide(a[3], b[3]),
    ];
    proof {
        assert(edig(r) =~= edig_map2(edig(a), edig(b), |x: Seq<int>, y: Seq<int>| ext_quot(x, y)));
    }
    r
}

/// Coordinate-wise negation of an extension digest.
pub fn ext_digest_neg(a: ExtDigest) -> (r: ExtDigest)
    ensures
        edig(r) == edig_map2(seq![ext_zero(), ext_zero(), ext_zero(), ext_zero()], edig(a), |x: Seq<int>, y: Seq<int>| ext_diff(x, y)),
{
    let z = [BabyBear::zero(), BabyBear::zero(), BabyBear::zero(), BabyBear::zero()];
    proof {
        assert(ext_vals(z) =~= ext_zero());
    }
    let r = [
        FieldExtension::subtract(z, a[0]),
        FieldExtension::subtract(z, a[1]),
        FieldExtension::subtract(z, a[2]),
        FieldExtension::subtract(z, a[3]),
    ];
    proof {
        assert(edig(r) =~= edig_map2(seq![ext_zero(), ext_zero(), ext_zero(), ext_zero()], edig(a), |x: Seq<int>, y: Seq<int>| ext_diff(x, y)));
    }
    r
}

/// The zero extension element.
pub open spec fn ext_zero() -> Seq<int> {
    seq![0int, 0, 0, 0]
}

/// A symbolic expression over extension elements.  No constants are folded.
#[derive(Clone, Debug)]
pub enum SymbolicExt {
    Const([BabyBear; 4], ExtDigest),
    Base(Arc<SymbolicFelt>, ExtDigest),
    Val(Ext, ExtDigest),
    Add(Arc<SymbolicExt>, Arc<SymbolicExt>, ExtDigest),
    Mul(Arc<SymbolicExt>, Arc<SymbolicExt>, ExtDigest),
    Sub(Arc<SymbolicExt>, Arc<SymbolicExt>, ExtDigest),
    Div(Arc<SymbolicExt>, Arc<SymbolicExt>, ExtDigest),
    Neg(Arc<SymbolicExt>, ExtDigest),
}

/// An operand of an extension expression: a base constant, an extension constant, a felt, an
/// extension variable, or an expression of either kind.
#[derive(Clone, Debug)]
pub enum ExtOperand {
    Base(BabyBear),
    Const([BabyBear; 4]),
    Felt(Felt),
    Ext(Ext),
    SymFelt(SymbolicFelt),
    Sym(SymbolicExt),
}

impl SymbolicExt {
    /// The digest stored at the root.
    pub open spec fn digest_of(self) -> ExtDigest {
        match self {
            SymbolicExt::Const(_, d) => d,
            SymbolicExt::Base(_, d) => d,
            SymbolicExt::Val(_, d) => d,
            SymbolicExt::Add(_, _, d) => d,
            SymbolicExt::Mul(_, _, d) => d,
            SymbolicExt::Sub(_, _, d) => d,
            SymbolicExt::Div(_, _, d) => d,
            SymbolicExt::Neg(_, d) => d,
        }
    }

    /// The digest stored at the root.
    pub fn digest(&self) -> (r: ExtDigest)
        ensures
            r == self.digest_of(),
    {
        match self {
            SymbolicExt::Const(_, d) => *d,
            SymbolicExt::Base(_, d) => *d,
            SymbolicExt::Val(_, d) => *d,
            SymbolicExt::Add(_, _, d) => *d,
            SymbolicExt::Mul(_, _, d) => *d,
            SymbolicExt::Sub(_, _, d) => *d,
            SymbolicExt::Div(_, _, d) => *d,
            SymbolicExt::Neg(_, d) => *d,
        }
    }
}

/// The digest of an operand: a base value is embedded coordinate by coordinate, an extension
/// constant is repeated, a variable gets the digest of its identifier.
pub open spec fn operand_digest(op: ExtOperand) -> Seq<Seq<int>> {
    match op {
        ExtOperand::Base(f) => dig_from_base(seq![f.val(), f.val(), f.val(), f.val()]),
        ExtOperand::Const(c) => seq![ext_vals(c), ext_vals(c), ext_vals(c), ext_vals(c)],
        ExtOperand::Felt(f) => dig_from_base(digest_id_spec(f.0)),
        ExtOperand::Ext(e) => digest_id_ext_spec(e.0),
        ExtOperand::SymFelt(f) => dig_from_base(dig_vals(f.digest_of())),
        ExtOperand::Sym(e) => edig(e.digest_of()),
    }
}

/// `s` is the expression of the operand `op`: a base value or a felt becomes a base node over
/// the felt expression, a constant a constant node, a variable a value node; an expression
/// stays as it is.  The root digest is the operand's digest.
pub open spec fn symbolic_of(op: ExtOperand, s: SymbolicExt) -> bool {
    &&& edig(s.digest_of()) == operand_digest(op)
    &&& match op {
        ExtOperand::Base(f) => s matches SymbolicExt::Base(x, _) && *x matches SymbolicFelt::Const(
            c,
            cd,
        ) && c == f && cd[0] == f && cd[1] == f && cd[2] == f && cd[3] == f,
        ExtOperand::Const(c) => s matches SymbolicExt::Const(k, _) && k == c,
        ExtOperand::Felt(f) => s matches SymbolicExt::Base(x, _) && *x matches SymbolicFelt::Val(
            w,
            wd,
        ) && w == f && dig_canonical(wd) && dig_vals(wd) == digest_id_spec(f.0),
        ExtOperand::Ext(e) => s matches SymbolicExt::Val(w, _) && w == e,
        ExtOperand::SymFelt(f) => s matches SymbolicExt::Base(x, _) && *x == f,
        ExtOperand::Sym(e) => s == e,
    }
}

impl ExtOperand {
    /// The digest of the operand.
    pub fn digest(&self) -> (r: ExtDigest)
        ensures
            edig(r) == operand_digest(*self),
    {
        match self {
            ExtOperand::Base(f) => digest_from_base(SymbolicFelt::from_field(*f).digest()),
            ExtOperand::Const(c) => {
                let r = [*c, *c, *c, *c];
                assert(edig(r) =~= operand_digest(*self));
                r
            },
            ExtOperand::Felt(f) => digest_from_base(SymbolicFelt::from_felt(*f).digest()),
            ExtOperand::Ext(e) => digest_id_ext(e.0),
            ExtOperand::SymFelt(f) => digest_from_base(f.digest()),
            ExtOperand::Sym(e) => e.digest(),
        }
    }

    /// The operand as an expression.
    pub fn symbolic(self) -> (r: SymbolicExt)
        ensures
            symbolic_of(self, r),
    {
        let digest = self.digest();
        match self {
            ExtOperand::Base(f) => SymbolicExt::Base(Arc::new(SymbolicFelt::from_field(f)), digest),
            ExtOperand::Const(c) => SymbolicExt::Const(c, digest),
            ExtOperand::Felt(f) => SymbolicExt::Base(Arc::new(SymbolicFelt::from_felt(f)), digest),
            ExtOperand::Ext(e) => SymbolicExt::Val(e, digest),
            ExtOperand::SymFelt(f) => SymbolicExt::Base(Arc::new(f), digest),
            ExtOperand::Sym(e) => e,
        }
    }
}

impl SymbolicExt {
    /// `self + rhs`.
    pub fn add(self, rhs: ExtOperand) -> (r: SymbolicExt)
        ensures
            r matches SymbolicExt::Add(x, y, d) && *x == self && symbolic_of(rhs, *y) && edig(d)
                == edig_map2(
                edig(self.digest_of()),
                operand_digest(rhs),
                |a: Seq<int>, b: Seq<int>| ext_sum(a, b),
            ),
    {
        let rhs = rhs.symbolic();
        let digest = ext_digest_add(self.digest(), rhs.digest());
        SymbolicExt::Add(Arc::new(self), Arc::new(rhs), digest)
    }

    /// `self * rhs`.
    pub fn mul(self, rhs: ExtOperand) -> (r: SymbolicExt)
        ensures
            r matches SymbolicExt::Mul(x, y, d) && *x == self && symbolic_of(rhs, *y) && edig(d)
                == edig_map2(
                edig(self.digest_of()),
                operand_digest(rhs),
                |a: Seq<int>, b: Seq<int>| ext_prod(a, b),
            ),
    {
        let rhs_digest = rhs.digest();
        let prod_digest = ext_digest_mul(self.digest(), rhs_digest);
        match rhs {
            ExtOperand::Base(f) => SymbolicExt::Mul(
                Arc::new(self),
                Arc::new(SymbolicExt::Base(Arc::new(SymbolicFelt::from_field(f)), rhs_digest)),
                prod_digest,
            ),
            ExtOperand::Const(c) => SymbolicExt::Mul(
                Arc::new(self),
                Arc::new(SymbolicExt::Const(c, rhs_digest)),
                prod_digest,
            ),
            ExtOperand::Felt(f) => SymbolicExt::Mul(
                Arc::new(self),
                Arc::new(SymbolicExt::Base(Arc::new(SymbolicFelt::from_felt(f)), rhs_digest)),
                prod_digest,
            ),
            ExtOperand::Ext(e) => SymbolicExt::Mul(
                Arc::new(self),
                Arc::new(SymbolicExt::Val(e, rhs_digest)),
                prod_digest,
            ),
            ExtOperand::SymFelt(f) => SymbolicExt::Mul(
                Arc::new(self),
                Arc::new(SymbolicExt::Base(Arc::new(f), rhs_digest)),
                prod_digest,
            ),
            ExtOperand::Sym(e) => SymbolicExt::Mul(Arc::new(self), Arc::new(e), prod_digest),
        }
    }

    /// `self - rhs`.
    pub fn sub(self, rhs: ExtOperand) -> (r: SymbolicExt)
        ensures
            r matches SymbolicExt::Sub(x, y, d) && *x == self && symbolic_of(rhs, *y) && edig(d)
                == edig_map2(
                edig(self.digest_of()),
                operand_digest(rhs),
                |a: Seq<int>, b: Seq<int>| ext_diff(a, b),
            ),
    {
        let rhs_digest = rhs.digest();
        let digest = ext_digest_sub(self.digest(), rhs_digest);
        match rhs {
            ExtOperand::Base(f) => SymbolicExt::Sub(
                Arc::new(self),
                Arc::new(SymbolicExt::Base(Arc::new(SymbolicFelt::from_field(f)), rhs_digest)),
                digest,
            ),
            ExtOperand::Const(c) => SymbolicExt::Sub(
                Arc::new(self),
                Arc::new(SymbolicExt::Const(c, rhs_digest)),
                digest,
            ),
            ExtOperand::Felt(f) => SymbolicExt::Sub(
                Arc::new(self),
                Arc::new(SymbolicExt::Base(Arc::new(SymbolicFelt::from_felt(f)), rhs_digest)),
                digest,
            ),
            ExtOperand::Ext(e) => SymbolicExt::Sub(
                Arc::new(self),
                Arc::new(SymbolicExt::Val(e, rhs_digest)),
                digest,
            ),
            ExtOperand::SymFelt(f) => SymbolicExt::Sub(
                Arc::new(self),
                Arc::new(SymbolicExt::Base(Arc::new(f), rhs_digest)),
                digest,
            ),
            ExtOperand::Sym(e) => SymbolicExt::Sub(Arc::new(self), Arc::new(e), digest),
        }
    }

    /// `self / rhs`.  The digests are divided coordinate by coordinate, so every coordinate of
    /// the divisor's digest must have an inverse.
    pub fn div(self, rhs: ExtOperand) -> (r: SymbolicExt)
        requires
            operand_invertible(rhs),
        ensures
            r matches SymbolicExt::Div(x, y, d) && *x == self && symbolic_of(rhs, *y) && edig(d)
                == edig_map2(
                edig(self.digest_of()),
                operand_digest(rhs),
                |a: Seq<int>, b: Seq<int>| ext_quot(a, b),
            ),
    {
        let rhs_digest = rhs.digest();
        let digest = ext_digest_div(self.digest(), rhs_digest);
        match rhs {
            ExtOperand::Base(f) => SymbolicExt::Div(
                Arc::new(self),
                Arc::new(SymbolicExt::Base(Arc::new(SymbolicFelt::from_field(f)), rhs_digest)),
                digest,
            ),
            ExtOperand::Const(c) => SymbolicExt::Div(
                Arc::new(self),
                Arc::new(SymbolicExt::Const(c, rhs_digest)),
                digest,
            ),
            ExtOperand::Felt(f) => SymbolicExt::Div(
                Arc::new(self),
                Arc::new(SymbolicExt::Base(Arc::new(SymbolicFelt::from_felt(f)), rhs_digest)),
                digest,
            ),
            ExtOperand::Ext(e) => SymbolicExt::Div(
                Arc::new(self),
                Arc::new(SymbolicExt::Val(e, rhs_digest)),
                digest,
            ),
            ExtOperand::SymFelt(f) => SymbolicExt::Div(
                Arc::new(self),
                Arc::new(SymbolicExt::Base(Arc::new(f), rhs_digest)),
                digest,
            ),
            ExtOperand::Sym(e) => SymbolicExt::Div(Arc::new(self), Arc::new(e), digest),
        }
    }

    /// `-self`.
    pub fn neg(self) -> (r: SymbolicExt)
        ensures
            r matches SymbolicExt::Neg(x, d) && *x == self && edig(d) == edig_map2(
                seq![ext_zero(), ext_zero(), ext_zero(), ext_zero()],
                edig(self.digest_of()),
                |a: Seq<int>, b: Seq<int>| ext_diff(a, b),
            ),
    {
        let digest = ext_digest_neg(self.digest());
        SymbolicExt::Neg(Arc::new(self), digest)
    }
}

/// Every coordinate of the operand's digest has an inverse.
pub open spec fn operand_invertible(op: ExtOperand) -> bool {
    let d = operand_digest(op);
    &&& modp(ext_norm(d[0])) != 0
    &&& modp(ext_norm(d[1])) != 0
    &&& modp(ext_norm(d[2])) != 0
    &&& modp(ext_norm(d[3])) != 0
}

// ---------------------------------------------------------------------------------------------
// Laws of constant folding.
// ---------------------------------------------------------------------------------------------
/// The value of an expression is a canonical field element.
pub proof fn lemma_eval_range(e: SymbolicVar, env: spec_fn(u32) -> int)
    ensures
        0 <= e.eval(env) < crate::field::p(),
{
    match e {
        SymbolicVar::Const(c, _) => crate::field::lemma_modp_basics(c.val()),
        SymbolicVar::Val(v, _) => crate::field::lemma_modp_basics(env(v.0)),
        SymbolicVar::Add(a, b, _) => crate::field::lemma_modp_basics(
            (*a).eval(env) + (*b).eval(env),
        ),
        SymbolicVar::Mul(a, b, _) => crate::field::lemma_modp_basics(
            (*a).eval(env) * (*b).eval(env),
        ),
        SymbolicVar::Sub(a, b, _) => crate::field::lemma_modp_basics(
            (*a).eval(env) - (*b).eval(env),
        ),
        SymbolicVar::Neg(a, _) => crate::field::lemma_modp_basics(-(*a).eval(env)),
    }
}

/// Building `a + b` keeps the value: in every environment the result evaluates to the sum of
/// the values of the operands.
pub proof fn lemma_add_keeps_value(
    a: SymbolicVar,
    b: SymbolicVar,
    r: SymbolicVar,
    env: spec_fn(u32) -> int,
)
    requires
        folded_add(a, b, r),
    ensures
        r.eval(env) == modp(a.eval(env) + b.eval(env)),
{
    lemma_eval_range(a, env);
    lemma_eval_range(b, env);
    if a is Const && b is Const {
        let x = a->Const_0.val();
        let y = b->Const_0.val();
        crate::field::lemma_modp_basics(x);
        crate::field::lemma_modp_basics(y);
        crate::field::lemma_modp_basics(x + y);
        crate::field::lemma_eqm_add(modp(x), x, modp(y), y);
    } else if a.is_zero_const() {
        crate::field::lemma_modp_small(0);
        crate::field::lemma_modp_small(b.eval(env));
    } else if b.is_zero_const() {
        crate::field::lemma_modp_small(0);
        crate::field::lemma_modp_small(a.eval(env));
    }
}

/// Building `a * b` keeps the value.
pub proof fn lemma_mul_keeps_value(
    a: SymbolicVar,
    b: SymbolicVar,
    r: SymbolicVar,
    env: spec_fn(u32) -> int,
)
    requires
        folded_mul(a, b, r),
    ensures
        r.eval(env) == modp(a.eval(env) * b.eval(env)),
{
    lemma_eval_range(a, env);
    lemma_eval_range(b, env);
    crate::field::lemma_modp_small(0);
    crate::field::lemma_modp_small(1);
    if a is Const && b is Const {
        let x = a->Const_0.val();
        let y = b->Const_0.val();
        crate::field::lemma_modp_basics(x);
        crate::field::lemma_modp_basics(y);
        crate::field::lemma_modp_basics(x * y);
        crate::field::lemma_eqm_mul(modp(x), x, modp(y), y);
    } else if a.is_zero_const() {
        assert(0 * b.eval(env) == 0);
    } else if a.is_one_const() {
        assert(1 * b.eval(env) == b.eval(env));
        crate::field::lemma_modp_small(b.eval(env));
    } else if b.is_zero_const() {
        assert(a.eval(env) * 0 == 0);
    } else if b.is_one_const() {
        assert(a.eval(env) * 1 == a.eval(env));
        crate::field::lemma_modp_small(a.eval(env));
    }
}

/// Building `a - b` keeps the value, except where `a` is the constant zero and `b` is not a
/// constant: there the right operand is returned unchanged, whose value is `b`, not `-b`.
pub proof fn lemma_sub_keeps_value(
    a: SymbolicVar,
    b: SymbolicVar,
    r: SymbolicVar,
    env: spec_fn(u32) -> int,
)
    requires
        folded_sub(a, b, r),
        !a.is_zero_const() || b is Const,
    ensures
        r.eval(env) == modp(a.eval(env) - b.eval(env)),
{
    lemma_eval_range(a, env);
    lemma_eval_range(b, env);
    if a is Const && b is Const {
        let x = a->Const_0.val();
        let y = b->Const_0.val();
        crate::field::lemma_modp_basics(x);
        crate::field::lemma_modp_basics(y);
        crate::field::lemma_modp_basics(x - y);
        crate::field::lemma_eqm_sub(modp(x), x, modp(y), y);
    } else if b.is_zero_const() {
        crate::field::lemma_modp_small(0);
        crate::field::lemma_modp_small(a.eval(env));
    }
}

/// Building `-a` keeps the value.
pub proof fn lemma_neg_keeps_value(a: SymbolicVar, r: SymbolicVar, env: spec_fn(u32) -> int)
    requires
        folded_neg(a, r),
    ensures
        r.eval(env) == modp(-a.eval(env)),
{
    if a is Const {
        let x = a->Const_0.val();
        crate::field::lemma_modp_basics(x);
        crate::field::lemma_modp_basics(-x);
        crate::field::lemma_eqm_sub(0, 0, modp(x), x);
        assert(0 - modp(x) == -modp(x));
        assert(0 - x == -x);
    }
}

/// A canonical digest is its own reduction.
proof fn lemma_reduce_canonical(d: Digest)
    requires
        dig_canonical(d),
    ensures
        reduce4(dig_vals(d)) == dig_vals(d),
{
    crate::field::lemma_modp_small(d[0].val());
    crate::field::lemma_modp_small(d[1].val());
    crate::field::lemma_modp_small(d[2].val());
    crate::field::lemma_modp_small(d[3].val());
    assert(reduce4(dig_vals(d)) =~= dig_vals(d));
}

/// Building `a + b` from well-formed operands gives a well-formed expression whose digest is
/// the coordinate-wise sum of the operands' digests.
pub proof fn lemma_add_keeps_digest(a: SymbolicVar, b: SymbolicVar, r: SymbolicVar)
    requires
        a.wf(),
        b.wf(),
        folded_add(a, b, r),
    ensures
        r.wf(),
        dig_vals(r.digest_of()) == reduce4(
            ext_add_int(dig_vals(a.digest_of()), dig_vals(b.digest_of())),
        ),
{
    let da = dig_vals(a.digest_of());
    let db = dig_vals(b.digest_of());
    if a is Const && b is Const {
        let c = r->Const_0;
        let rd = r->Const_1;
        assert(dig_vals(rd)[0] == c.val());
        assert(dig_vals(rd)[1] == c.val());
        assert(dig_vals(rd)[2] == c.val());
        assert(dig_vals(rd)[3] == c.val());
    } else if a.is_zero_const() {
        lemma_reduce_canonical(b.digest_of());
        assert(ext_add_int(da, db) =~= db);
    } else if b.is_zero_const() {
        lemma_reduce_canonical(a.digest_of());
        assert(ext_add_int(da, db) =~= da);
    }
}

/// Building `a * b` from well-formed operands gives a well-formed expression whose digest is
/// the coordinate-wise product of the operands' digests.
pub proof fn lemma_mul_keeps_digest(a: SymbolicVar, b: SymbolicVar, r: SymbolicVar)
    requires
        a.wf(),
        b.wf(),
        folded_mul(a, b, r),
    ensures
        r.wf(),
        dig_vals(r.digest_of()) == reduce4(
            mul4_int(dig_vals(a.digest_of()), dig_vals(b.digest_of())),
        ),
{
    let da = dig_vals(a.digest_of());
    let db = dig_vals(b.digest_of());
    crate::field::lemma_modp_small(0);
    if a is Const && b is Const {
        let c = r->Const_0;
        let rd = r->Const_1;
        assert(dig_vals(rd)[0] == c.val());
        assert(dig_vals(rd)[1] == c.val());
        assert(dig_vals(rd)[2] == c.val());
        assert(dig_vals(rd)[3] == c.val());
    } else if a.is_zero_const() {
        assert(da[0] == 0 && da[1] == 0 && da[2] == 0 && da[3] == 0);
        assert forall|i: int| 0 <= i < 4 implies #[trigger] (da[i] * db[i]) == 0 by {
            assert(da[i] * db[i] == 0) by (nonlinear_arith)
                requires
                    da[i] == 0,
            ;
        }
        assert(mul4_int(da, db) =~= seq![0int, 0, 0, 0]);
        assert(reduce4(mul4_int(da, db)) =~= da);
    } else if a.is_one_const() {
        assert(da[0] == 1 && da[1] == 1 && da[2] == 1 && da[3] == 1);
        assert forall|i: int| 0 <= i < 4 implies #[trigger] (da[i] * db[i]) == db[i] by {
            assert(da[i] * db[i] == db[i]) by (nonlinear_arith)
                requires
                    da[i] == 1,
            ;
        }
        lemma_reduce_canonical(b.digest_of());
        assert(mul4_int(da, db) =~= db);
    } else if b.is_zero_const() {
        assert(db[0] == 0 && db[1] == 0 && db[2] == 0 && db[3] == 0);
        assert forall|i: int| 0 <= i < 4 implies #[trigger] (da[i] * db[i]) == 0 by {
            assert(da[i] * db[i] == 0) by (nonlinear_arith)
                requires
                    db[i] == 0,
            ;
        }
        assert(mul4_int(da, db) =~= seq![0int, 0, 0, 0]);
        assert(reduce4(mul4_int(da, db)) =~= db);
    } else if b.is_one_const() {
        assert(db[0] == 1 && db[1] == 1 && db[2] == 1 && db[3] == 1);
        assert forall|i: int| 0 <= i < 4 implies #[trigger] (da[i] * db[i]) == da[i] by {
            assert(da[i] * db[i] == da[i]) by (nonlinear_arith)
                requires
                    db[i] == 1,
            ;
        }
        lemma_reduce_canonical(a.digest_of());
        assert(mul4_int(da, db) =~= da);
    }
}

/// Building `a - b` from well-formed operands gives a well-formed expression; its digest is the
/// coordinate-wise difference of the operands' digests except where `a` is the constant zero
/// and `b` is not a constant.
pub proof fn lemma_sub_keeps_digest(a: SymbolicVar, b: SymbolicVar, r: SymbolicVar)
    requires
        a.wf(),
        b.wf(),
        folded_sub(a, b, r),
    ensures
        r.wf(),
        !a.is_zero_const() || b is Const ==> dig_vals(r.digest_of()) == reduce4(
            ext_sub_int(dig_vals(a.digest_of()), dig_vals(b.digest_of())),
        ),
{
    let da = dig_vals(a.digest_of());
    let db = dig_vals(b.digest_of());
    if a is Const && b is Const {
        let c = r->Const_0;
        let rd = r->Const_1;
        assert(dig_vals(rd)[0] == c.val());
        assert(dig_vals(rd)[1] == c.val());
        assert(dig_vals(rd)[2] == c.val());
        assert(dig_vals(rd)[3] == c.val());
    } else if a.is_zero_const() {
    } else if b.is_zero_const() {
        lemma_reduce_canonical(a.digest_of());
        assert(ext_sub_int(da, db) =~= da);
    }
}

/// Building `-a` from a well-formed operand gives a well-formed expression whose digest is the
/// coordinate-wise negation of the operand's digest.
pub proof fn lemma_neg_keeps_digest(a: SymbolicVar, r: SymbolicVar)
    requires
        a.wf(),
        folded_neg(a, r),
    ensures
        r.wf(),
        dig_vals(r.digest_of()) == reduce4(neg4_int(dig_vals(a.digest_of()))),
{
    if a is Const {
        let c = r->Const_0;
        let rd = r->Const_1;
        assert(dig_vals(rd)[0] == c.val());
        assert(dig_vals(rd)[1] == c.val());
        assert(dig_vals(rd)[2] == c.val());
        assert(dig_vals(rd)[3] == c.val());
    }
}


/// Whether two digests are equal, coordinate by coordinate.
fn digest_eq(a: &Digest, b: &Digest) -> (r: bool)
    ensures
        r == (*a == *b),
{
    let r = a[0] == b[0] && a[1] == b[1] && a[2] == b[2] && a[3] == b[3];
    proof {
        if r {
            assert(*a =~= *b);
        }
    }
    r
}

/// Whether two extension digests are equal.
fn ext_digest_eq(a: &ExtDigest, b: &ExtDigest) -> (r: bool)
    ensures
        r == (*a == *b),
{
    let r = digest_eq(&a[0], &b[0]) && digest_eq(&a[1], &b[1]) && digest_eq(&a[2], &b[2])
        && digest_eq(&a[3], &b[3]);
    proof {
        if r {
            assert(*a =~= *b);
        }
    }
    r
}

impl SymbolicVar {
    /// Structural equality: the digests are compared first, then the nodes and their operands.
    pub fn same_as(&self, other: &Self) -> (r: bool)
        ensures
            r == (*self == *other),
        decreases self,
    {
        if !digest_eq(&self.digest(), &other.digest()) {
            return false;
        }
        match (self, other) {
            (SymbolicVar::Const(a, _), SymbolicVar::Const(b, _)) => *a == *b,
            (SymbolicVar::Val(a, _), SymbolicVar::Val(b, _)) => *a == *b,
            (SymbolicVar::Add(a, b, _), SymbolicVar::Add(c, d, _)) => (**a).same_as(&**c)
                && (**b).same_as(&**d),
            (SymbolicVar::Mul(a, b, _), SymbolicVar::Mul(c, d, _)) => (**a).same_as(&**c)
                && (**b).same_as(&**d),
            (SymbolicVar::Sub(a, b, _), SymbolicVar::Sub(c, d, _)) => (**a).same_as(&**c)
                && (**b).same_as(&**d),
            (SymbolicVar::Neg(a, _), SymbolicVar::Neg(b, _)) => (**a).same_as(&**b),
            _ => false,
        }
    }
}

impl PartialEq for SymbolicVar {
    fn eq(&self, other: &Self) -> (r: bool) {
        self.same_as(other)
    }
}

impl vstd::std_specs::cmp::PartialEqSpecImpl for SymbolicVar {
    open spec fn obeys_eq_spec() -> bool {
        true
    }

    open spec fn eq_spec(&self, other: &Self) -> bool {
        *self == *other
    }
}

impl Eq for SymbolicVar {}

impl SymbolicFelt {
    /// Structural equality: the digests are compared first, then the nodes and their operands.
    pub fn same_as(&self, other: &Self) -> (r: bool)
        ensures
            r == (*self == *other),
        decreases self,
    {
        if !digest_eq(&self.digest(), &other.digest()) {
            return false;
        }
        match (self, other) {
            (SymbolicFelt::Const(a, _), SymbolicFelt::Const(b, _)) => *a == *b,
            (SymbolicFelt::Val(a, _), SymbolicFelt::Val(b, _)) => *a == *b,
            (SymbolicFelt::Add(a, b, _), SymbolicFelt::Add(c, d, _)) => (**a).same_as(&**c)
                && (**b).same_as(&**d),
            (SymbolicFelt::Mul(a, b, _), SymbolicFelt::Mul(c, d, _)) => (**a).same_as(&**c)
                && (**b).same_as(&**d),
            (SymbolicFelt::Sub(a, b, _), SymbolicFelt::Sub(c, d, _)) => (**a).same_as(&**c)
                && (**b).same_as(&**d),
            (SymbolicFelt::Div(a, b, _), SymbolicFelt::Div(c, d, _)) => (**a).same_as(&**c)
                && (**b).same_as(&**d),
            (SymbolicFelt::Neg(a, _), SymbolicFelt::Neg(b, _)) => (**a).same_as(&**b),
            _ => false,
        }
    }
}

impl PartialEq for SymbolicFelt {
    fn eq(&self, other: &Self) -> (r: bool) {
        self.same_as(other)
    }
}

impl vstd::std_specs::cmp::PartialEqSpecImpl for SymbolicFelt {
    open spec fn obeys_eq_spec() -> bool {
        true
    }

    open spec fn eq_spec(&self, other: &Self) -> bool {
        *self == *other
    }
}

impl Eq for SymbolicFelt {}

impl SymbolicExt {
    /// Structural equality: the digests are compared first, then the nodes and their operands.
    pub fn same_as(&self, other: &Self) -> (r: bool)
        ensures
            r == (*self == *other),
        decreases self,
    {
        if !ext_digest_eq(&self.digest(), &other.digest()) {
            return false;
        }
        match (self, other) {
            (SymbolicExt::Const(a, _), SymbolicExt::Const(b, _)) => digest_eq(a, b),
            (SymbolicExt::Base(a, _), SymbolicExt::Base(b, _)) => (**a).same_as(&**b),
            (SymbolicExt::Val(a, _), SymbolicExt::Val(b, _)) => *a == *b,
            (SymbolicExt::Add(a, b, _), SymbolicExt::Add(c, d, _)) => (**a).same_as(&**c)
                && (**b).same_as(&**d),
            (SymbolicExt::Mul(a, b, _), SymbolicExt::Mul(c, d, _)) => (**a).same_as(&**c)
                && (**b).same_as(&**d),
            (SymbolicExt::Sub(a, b, _), SymbolicExt::Sub(c, d, _)) => (**a).same_as(&**c)
                && (**b).same_as(&**d),
            (SymbolicExt::Div(a, b, _), SymbolicExt::Div(c, d, _)) => (**a).same_as(&**c)
                && (**b).same_as(&**d),
            (SymbolicExt::Neg(a, _), SymbolicExt::Neg(b, _)) => (**a).same_as(&**b),
            _ => false,
        }
    }
}

impl PartialEq for SymbolicExt {
    fn eq(&self, other: &Self) -> (r: bool) {
        self.same_as(other)
    }
}

impl vstd::std_specs::cmp::PartialEqSpecImpl for SymbolicExt {
    open spec fn obeys_eq_spec() -> bool {
        true
    }

    open spec fn eq_spec(&self, other: &Self) -> bool {
        *self == *other
    }
}

impl Eq for SymbolicExt {}

/// The value of the product of the expressions, multiplied from the left.
pub open spec fn eval_product(items: Seq<SymbolicVar>, env: spec_fn(u32) -> int) -> int
    decreases items.len(),
{
    if items.len() == 0 {
        1
    } else {
        modp(eval_product(items.drop_last(), env) * items.last().eval(env))
    }
}

/// The value of the sum of the expressions, added from the left.
pub open spec fn eval_sum(items: Seq<SymbolicVar>, env: spec_fn(u32) -> int) -> int
    decreases items.len(),
{
    if items.len() == 0 {
        0
    } else {
        modp(eval_sum(items.drop_last(), env) + items.last().eval(env))
    }
}

impl SymbolicVar {
    /// The product of the expressions: the constant one multiplied by each in turn.
    pub fn product(items: Vec<SymbolicVar>) -> (r: SymbolicVar)
        ensures
            forall|env: spec_fn(u32) -> int| #[trigger] r.eval(env) == eval_product(items@, env),
    {
        let ghost all = items@;
        let mut items = items;
        let mut acc = SymbolicVar::one();
        let ghost mut k: int = 0;
        proof {
            crate::field::lemma_modp_small(1);
            assert(all.take(0) =~= Seq::<SymbolicVar>::empty());
        }
        while items.len() > 0
            invariant
                0 <= k <= all.len(),
                items@ == all.skip(k),
                forall|env: spec_fn(u32) -> int| #[trigger] acc.eval(env) == eval_product(all.take(k), env),
            decreases items@.len(),
        {
            let x = items.remove(0);
            let ghost before = acc;
            acc = acc.mul(x);
            proof {
                assert(x == all[k]);
                assert forall|env: spec_fn(u32) -> int| #[trigger] acc.eval(env) == eval_product(all.take(k + 1), env) by {
                    lemma_mul_keeps_value(before, x, acc, env);
                    assert(all.take(k + 1).drop_last() =~= all.take(k));
                }
                assert(items@ =~= all.skip(k + 1));
                k = k + 1;
            }
        }
        proof {
            assert(all.take(k) =~= all);
        }
        acc
    }

    /// The sum of the expressions: the constant zero plus each in turn.
    pub fn sum(items: Vec<SymbolicVar>) -> (r: SymbolicVar)
        ensures
            forall|env: spec_fn(u32) -> int| #[trigger] r.eval(env) == eval_sum(items@, env),
    {
        let ghost all = items@;
        let mut items = items;
        let mut acc = SymbolicVar::zero();
        let ghost mut k: int = 0;
        proof {
            crate::field::lemma_modp_small(0);
            assert(all.take(0) =~= Seq::<SymbolicVar>::empty());
        }
        while items.len() > 0
            invariant
                0 <= k <= all.len(),
                items@ == all.skip(k),
                forall|env: spec_fn(u32) -> int| #[trigger] acc.eval(env) == eval_sum(all.take(k), env),
            decreases items@.len(),
        {
            let x = items.remove(0);
            let ghost before = acc;
            acc = acc.add(x);
            proof {
                assert(x == all[k]);
                assert forall|env: spec_fn(u32) -> int| #[trigger] acc.eval(env) == eval_sum(all.take(k + 1), env) by {
                    lemma_add_keeps_value(before, x, acc, env);
                    assert(all.take(k + 1).drop_last() =~= all.take(k));
                }
                assert(items@ =~= all.skip(k + 1));
                k = k + 1;
            }
        }
        proof {
            assert(all.take(k) =~= all);
        }
        acc
    }
}

/// `r` is the product of the expressions: the constant one multiplied by each in turn, each
/// step a multiplication node whose digest is the product of the digests.
pub open spec fn ext_product_of(items: Seq<SymbolicExt>, r: SymbolicExt) -> bool
    decreases items.len(),
{
    if items.len() == 0 {
        symbolic_of(
            ExtOperand::Const([BabyBear { v: 1 }, BabyBear { v: 0 }, BabyBear { v: 0 }, BabyBear { v: 0 }]),
            r,
        )
    } else {
        r matches SymbolicExt::Mul(x, y, d) && ext_product_of(items.drop_last(), *x) && *y
            == items.last() && edig(d) == edig_map2(
            edig(x.digest_of()),
            edig(items.last().digest_of()),
            |a: Seq<int>, b: Seq<int>| ext_prod(a, b),
        )
    }
}

impl SymbolicExt {
    /// The product of the expressions: the constant one multiplied by each in turn.
    pub fn product(items: Vec<SymbolicExt>) -> (r: SymbolicExt)
        ensures
            ext_product_of(items@, r),
    {
        let ghost all = items@;
        let mut items = items;
        let one = [BabyBear::one(), BabyBear::zero(), BabyBear::zero(), BabyBear::zero()];
        let mut acc = ExtOperand::Const(one).symbolic();
        let ghost mut k: int = 0;
        proof {
            assert(all.take(0) =~= Seq::<SymbolicExt>::empty());
        }
        while items.len() > 0
            invariant
                0 <= k <= all.len(),
                items@ == all.skip(k),
                ext_product_of(all.take(k), acc),
            decreases items@.len(),
        {
            let x = items.remove(0);
            let ghost before = acc;
            acc = acc.mul(ExtOperand::Sym(x));
            proof {
                assert(x == all[k]);
                assert(all.take(k + 1).drop_last() =~= all.take(k));
                assert(all.take(k + 1).last() == x);
                assert(items@ =~= all.skip(k + 1));
                k = k + 1;
            }
        }
        proof {
            assert(all.take(k) =~= all);
        }
        acc
    }
}

} // verus!
