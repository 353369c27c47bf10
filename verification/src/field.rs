//! The BabyBear prime field `F_p` with `p = 15 * 2^27 + 1`, the native field of the VM.
//!
//! Elements are kept in canonical form (a `u32` below `p`).  The arithmetic is specified by the
//! integer operation reduced modulo `p`.
use openvm_stark_backend::p3_field::{Field, PrimeField32};
use openvm_stark_sdk::p3_baby_bear::BabyBear as P3BabyBear;
use vstd::arithmetic::div_mod::*;
use vstd::prelude::*;

verus! {

/// The BabyBear modulus.
pub const BABY_BEAR_P: u32 = 2013265921u32;

/// The modulus as a mathematical integer.
pub open spec fn p() -> int {
    2013265921
}

/// Reduction modulo `p`.
pub open spec fn modp(x: int) -> int {
    x % p()
}

/// An element of the BabyBear field, stored by its canonical representative.
#[derive(Clone, Copy, Debug, PartialEq, Eq, Structural)]
pub struct BabyBear {
    pub v: u32,
}

impl BabyBear {
    /// The field element as an integer.
    pub open spec fn val(self) -> int {
        self.v as int
    }

    /// The representative is canonical.
    pub open spec fn canonical(self) -> bool {
        self.v < BABY_BEAR_P
    }
}

/// The canonical multiplicative inverse of `x` modulo `p` (meaningful when `x` is nonzero).
pub open spec fn field_inv(x: int) -> int {
    choose|r: int| 0 <= r < p() && #[trigger] modp(x * r) == 1
}

/// The inverse is unique.
pub proof fn lemma_inverse_unique(x: int, r: int)
    requires
        0 <= r < p(),
        modp(x * r) == 1,
    ensures
        r == field_inv(x),
{
    let s = field_inv(x);
    assert(0 <= s < p() && modp(x * s) == 1);
    // r = r * (x * s) = (x * r) * s = s  (mod p)
    lemma_modp_small(1);
    lemma_eqm_mul(r, r, x * s, 1);
    lemma_eqm_mul(x * r, 1, s, s);
    assert(r * (x * s) == (x * r) * s) by (nonlinear_arith);
    lemma_modp_small(r);
    lemma_modp_small(s);
}

/// All four coordinates of an array of field elements are canonical.
pub open spec fn all_canonical4(x: [BabyBear; 4]) -> bool {
    forall|i: int| 0 <= i < 4 ==> #[trigger] x[i].canonical()
}

// ---------------------------------------------------------------------------------------------
// Congruence lemmas used throughout the crate.
// ---------------------------------------------------------------------------------------------
/// Values congruent modulo `p` can be substituted in sums.
pub proof fn lemma_eqm_add(a: int, b: int, c: int, d: int)
    requires
        modp(a) == modp(b),
        modp(c) == modp(d),
    ensures
        modp(a + c) == modp(b + d),
{
    lemma_add_mod_noop(a, c, p());
    lemma_add_mod_noop(b, d, p());
}

/// Values congruent modulo `p` can be substituted in differences.
pub proof fn lemma_eqm_sub(a: int, b: int, c: int, d: int)
    requires
        modp(a) == modp(b),
        modp(c) == modp(d),
    ensures
        modp(a - c) == modp(b - d),
{
    lemma_sub_mod_noop(a, c, p());
    lemma_sub_mod_noop(b, d, p());
}

/// Values congruent modulo `p` can be substituted in products.
pub proof fn lemma_eqm_mul(a: int, b: int, c: int, d: int)
    requires
        modp(a) == modp(b),
        modp(c) == modp(d),
    ensures
        modp(a * c) == modp(b * d),
{
    lemma_mul_mod_noop(a, c, p());
    lemma_mul_mod_noop(b, d, p());
}

/// Reduction is idempotent and lands in `[0, p)`.
pub proof fn lemma_modp_basics(a: int)
    ensures
        modp(modp(a)) == modp(a),
        0 <= modp(a) < p(),
{
    lemma_mod_twice(a, p());
    lemma_mod_bound(a, p());
}

/// A canonical value is its own reduction.
pub proof fn lemma_modp_small(a: int)
    requires
        0 <= a < p(),
    ensures
        modp(a) == a,
{
    lemma_small_mod(a as nat, p() as nat);
}

// ---------------------------------------------------------------------------------------------
// The outside field: only the inverse is taken from it.
// ---------------------------------------------------------------------------------------------
/// Calls `Field::inverse` of the BabyBear field of Plonky3 (through `openvm_stark_sdk`).
/// Claimed: for an input that is nonzero modulo `p`, the result is the canonical multiplicative
/// inverse, i.e. `a * r = 1 (mod p)`.  The outside function panics on zero, hence the `requires`.
#[verifier::external_body]
fn p3_inverse(a: u32) -> (r: u32)
    requires
        modp(a as int) != 0,
    ensures
        r < BABY_BEAR_P,
        modp(a * r) == 1,
{
    P3BabyBear::new(a).inverse().as_canonical_u32()
}

impl BabyBear {
    /// Builds the element with the canonical representative `n`.
    pub fn from_canonical_u32(n: u32) -> (r: BabyBear)
        requires
            n < BABY_BEAR_P,
        ensures
            r.v == n,
    {
        BabyBear { v: n }
    }

    /// Builds the element `n mod p`.
    pub fn from_wrapped_u32(n: u32) -> (r: BabyBear)
        ensures
            r.val() == modp(n as int),
            r.canonical(),
    {
        BabyBear { v: n % BABY_BEAR_P }
    }

    /// Builds the element `n mod p` from a `usize`.
    pub fn from_canonical_usize(n: usize) -> (r: BabyBear)
        requires
            n < BABY_BEAR_P,
        ensures
            r.v == n,
    {
        BabyBear { v: n as u32 }
    }

    /// The canonical representative.
    pub fn as_canonical_u32(&self) -> (r: u32)
        ensures
            r == self.v,
    {
        self.v
    }

    pub fn zero() -> (r: BabyBear)
        ensures
            r.v == 0,
    {
        BabyBear { v: 0 }
    }

    pub fn one() -> (r: BabyBear)
        ensures
            r.v == 1,
    {
        BabyBear { v: 1 }
    }

    pub fn two() -> (r: BabyBear)
        ensures
            r.v == 2,
    {
        BabyBear { v: 2 }
    }

    /// `-1`, i.e. `p - 1`.
    pub fn neg_one() -> (r: BabyBear)
        ensures
            r.val() == p() - 1,
    {
        BabyBear { v: BABY_BEAR_P - 1 }
    }

    pub fn is_zero(&self) -> (r: bool)
        ensures
            r == (self.v == 0),
    {
        self.v == 0
    }

    pub fn is_one(&self) -> (r: bool)
        ensures
            r == (self.v == 1),
    {
        self.v == 1
    }

    /// Field addition.
    pub fn add(self, other: BabyBear) -> (r: BabyBear)
        ensures
            r.val() == modp(self.val() + other.val()),
            r.canonical(),
    {
        let s: u64 = self.v as u64 + other.v as u64;
        BabyBear { v: (s % (BABY_BEAR_P as u64)) as u32 }
    }

    /// Field subtraction.
    pub fn sub(self, other: BabyBear) -> (r: BabyBear)
        ensures
            r.val() == modp(self.val() - other.val()),
            r.canonical(),
    {
        let b: u64 = other.v as u64 % (BABY_BEAR_P as u64);
        let s: u64 = self.v as u64 + (BABY_BEAR_P as u64 - b);
        proof {
            lemma_mod_add_multiples_vanish(self.val() - modp(other.val()), p());
            lemma_sub_mod_noop_right(self.val(), other.val(), p());
        }
        BabyBear { v: (s % (BABY_BEAR_P as u64)) as u32 }
    }

    /// Field negation.
    pub fn neg(self) -> (r: BabyBear)
        ensures
            r.val() == modp(-self.val()),
            r.canonical(),
    {
        BabyBear::zero().sub(self)
    }

    /// Field multiplication.
    pub fn mul(self, other: BabyBear) -> (r: BabyBear)
        ensures
            r.val() == modp(self.val() * other.val()),
            r.canonical(),
    {
        let a: u64 = self.v as u64;
        let b: u64 = other.v as u64;
        proof {
            vstd::arithmetic::mul::lemma_mul_upper_bound(
                a as int,
                0xffff_ffff,
                b as int,
                0xffff_ffff,
            );
        }
        let m: u64 = a * b;
        BabyBear { v: (m % (BABY_BEAR_P as u64)) as u32 }
    }

    /// Multiplicative inverse of a nonzero element.
    pub fn inverse(self) -> (r: BabyBear)
        requires
            modp(self.val()) != 0,
        ensures
            r.canonical(),
            modp(self.val() * r.val()) == 1,
            r.val() == field_inv(self.val()),
    {
        let r = BabyBear { v: p3_inverse(self.v) };
        proof {
            lemma_inverse_unique(self.val(), r.val());
        }
        r
    }

    /// Field division `self / other`.
    pub fn div(self, other: BabyBear) -> (r: BabyBear)
        requires
            modp(other.val()) != 0,
        ensures
            r.canonical(),
            modp(r.val() * other.val()) == modp(self.val()),
    {
        let inv = other.inverse();
        let r = self.mul(inv);
        proof {
            // r * other = self * (inv * other) = self (mod p)
            lemma_modp_basics(self.val() * inv.val());
            lemma_eqm_mul(r.val(), self.val() * inv.val(), other.val(), other.val());
            assert(self.val() * inv.val() * other.val() == self.val() * (other.val()
                * inv.val())) by (nonlinear_arith);
            lemma_modp_small(1);
            lemma_eqm_mul(self.val(), self.val(), other.val() * inv.val(), 1);
        }
        r
    }

    /// `self^exp` by square-and-multiply.
    pub fn exp_u64(self, exp: u64) -> (r: BabyBear)
        ensures
            r.canonical(),
            r.val() == modp(pow_spec(self.val(), exp as nat)),
    {
        let mut result = BabyBear::one();
        let mut base = self;
        let mut e: u64 = exp;
        proof {
            assert(1 * pow_spec(self.val(), exp as nat) == pow_spec(self.val(), exp as nat));
        }
        while e > 0
            invariant
                result.canonical(),
                modp(result.val() * pow_spec(base.val(), e as nat)) == modp(
                    pow_spec(self.val(), exp as nat),
                ),
            decreases e,
        {
            let ghost old_result = result;
            let ghost old_base = base;
            let ghost old_e = e;
            if e % 2 == 1 {
                result = result.mul(base);
            }
            base = base.mul(base);
            e = e / 2;
            proof {
                lemma_pow_split(old_base.val(), old_e as nat);
                let bb = old_base.val() * old_base.val();
                lemma_modp_basics(bb);
                lemma_modp_basics(old_result.val() * old_base.val());
                lemma_pow_congruent(base.val(), bb, e as nat);
                if old_e % 2 == 1 {
                    // old_result * b^old_e = old_result * b * (b*b)^e
                    assert(old_result.val() * pow_spec(old_base.val(), old_e as nat)
                        == (old_result.val() * old_base.val()) * pow_spec(bb, e as nat))
                        by (nonlinear_arith)
                        requires
                            pow_spec(old_base.val(), old_e as nat) == old_base.val() * pow_spec(
                                bb,
                                e as nat,
                            ),
                    ;
                    lemma_eqm_mul(
                        result.val(),
                        old_result.val() * old_base.val(),
                        pow_spec(base.val(), e as nat),
                        pow_spec(bb, e as nat),
                    );
                } else {
                    lemma_eqm_mul(
                        result.val(),
                        old_result.val(),
                        pow_spec(base.val(), e as nat),
                        pow_spec(bb, e as nat),
                    );
                }
            }
        }
        proof {
            assert(pow_spec(base.val(), 0) == 1);
            lemma_modp_small(result.val());
        }
        result
    }
}

/// Integer power.
pub open spec fn pow_spec(b: int, e: nat) -> int
    decreases e,
{
    if e == 0 {
        1
    } else {
        b * pow_spec(b, (e - 1) as nat)
    }
}

proof fn lemma_pow_add(b: int, e1: nat, e2: nat)
    ensures
        pow_spec(b, e1 + e2) == pow_spec(b, e1) * pow_spec(b, e2),
    decreases e1,
{
    if e1 > 0 {
        lemma_pow_add(b, (e1 - 1) as nat, e2);
        assert(pow_spec(b, e1 + e2) == b * pow_spec(b, (e1 - 1 + e2) as nat));
        assert(b * (pow_spec(b, (e1 - 1) as nat) * pow_spec(b, e2)) == (b * pow_spec(
            b,
            (e1 - 1) as nat,
        )) * pow_spec(b, e2)) by (nonlinear_arith);
    }
}

proof fn lemma_pow_mul_base(b: int, e: nat)
    ensures
        pow_spec(b * b, e) == pow_spec(b, 2 * e),
    decreases e,
{
    if e > 0 {
        lemma_pow_mul_base(b, (e - 1) as nat);
        lemma_pow_add(b, 2, (2 * (e - 1)) as nat);
        assert(pow_spec(b, 2) == b * b) by {
            assert(pow_spec(b, 1) == b * pow_spec(b, 0));
        }
        assert((2 * (e - 1)) as nat + 2 == 2 * e);
    }
}

/// `b^e = b^(e mod 2) * (b^2)^(e / 2)`.
proof fn lemma_pow_split(b: int, e: nat)
    ensures
        e % 2 == 1 ==> pow_spec(b, e) == b * pow_spec(b * b, e / 2),
        e % 2 == 0 ==> pow_spec(b, e) == pow_spec(b * b, e / 2),
{
    lemma_pow_mul_base(b, e / 2);
    if e % 2 == 1 {
        assert(e == (2 * (e / 2)) + 1);
        lemma_pow_add(b, 1, 2 * (e / 2));
        assert(pow_spec(b, 1) == b * pow_spec(b, 0));
    } else {
        assert(e == 2 * (e / 2));
    }
}

/// Congruent bases give congruent powers.
proof fn lemma_pow_congruent(a: int, b: int, e: nat)
    requires
        modp(a) == modp(b),
    ensures
        modp(pow_spec(a, e)) == modp(pow_spec(b, e)),
    decreases e,
{
    if e > 0 {
        lemma_pow_congruent(a, b, (e - 1) as nat);
        lemma_eqm_mul(a, b, pow_spec(a, (e - 1) as nat), pow_spec(b, (e - 1) as nat));
    }
}

} // verus!
