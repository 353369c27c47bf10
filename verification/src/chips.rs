//! The cores of the cast and field-extension chips: what they compute from the values their
//! adapters read, what they record, and the trace rows they fill.
use crate::extension::{
    ext_add_spec, ext_div_spec, ext_inv, ext_mul_spec, ext_norm, ext_one, ext_sub_spec, ext_vals,
    FieldExtension,
};
use crate::field::{all_canonical4, modp, BabyBear, BABY_BEAR_P};
use crate::opcodes::{CastfOpcode, FieldExtensionOpcode, VmOpcode};
use vstd::prelude::*;

verus! {

/// The bits of each limb but the last.
pub const LIMB_BITS: usize = 8;

/// The bits of the last limb.
pub const FINAL_LIMB_BITS: usize = 6;

/// Casting a field element to four little-endian bytes.
pub struct CastF;

/// The `i`-th byte of `y`.
pub open spec fn byte(y: u32, i: int) -> u32 {
    ((y as int / pow256(i)) % 256) as u32
}

pub open spec fn pow256(i: int) -> int
    decreases i,
{
    if i <= 0 {
        1
    } else {
        256 * pow256(i - 1)
    }
}

impl CastF {
    /// The four little-endian bytes of `y`.
    pub fn solve(y: u32) -> (r: [u32; 4])
        ensures
            forall|i: int| 0 <= i < 4 ==> #[trigger] r[i] == byte(y, i),
    {
        let mut x: [u32; 4] = [0, 0, 0, 0];
        let b0 = y & 0xff;
        let b1 = (y >> 8u32) & 0xff;
        let b2 = (y >> 16u32) & 0xff;
        let b3 = (y >> 24u32) & 0xff;
        proof {
            assert(b0 == y % 256) by (bit_vector)
                requires
                    b0 == y & 0xff,
            ;
            assert(b1 == (y / 256) % 256) by (bit_vector)
                requires
                    b1 == (y >> 8u32) & 0xff,
            ;
            assert(b2 == (y / 65536) % 256) by (bit_vector)
                requires
                    b2 == (y >> 16u32) & 0xff,
            ;
            assert(b3 == (y / 16777216) % 256) by (bit_vector)
                requires
                    b3 == (y >> 24u32) & 0xff,
            ;
            reveal_with_fuel(pow256, 4);
        }
        x[0] = b0;
        x[1] = b1;
        x[2] = b2;
        x[3] = b3;
        x
    }
}

/// The four bytes recompose the value: `y = x0 + 256 x1 + 256^2 x2 + 256^3 x3`.
pub proof fn lemma_cast_bytes_recompose(y: u32)
    ensures
        byte(y, 0) + 256 * byte(y, 1) + 65536 * byte(y, 2) + 16777216 * byte(y, 3) == y,
        forall|i: int| 0 <= i < 4 ==> #[trigger] byte(y, i) < 256,
{
    reveal_with_fuel(pow256, 4);
    assert((y % 256) + 256 * ((y / 256) % 256) + 65536 * ((y / 65536) % 256) + 16777216 * ((y
        / 16777216) % 256) == y) by (bit_vector);
}

/// What one cast recorded.
#[derive(Clone, Copy, Debug)]
pub struct CastFRecord {
    pub in_val: BabyBear,
    pub out_val: [u32; 4],
}

/// The core columns of the cast chip.
#[derive(Clone, Copy, Debug)]
pub struct CastFCoreCols<T> {
    pub in_val: T,
    pub out_val: [T; 4],
    pub is_valid: T,
}

/// The core of the cast chip.
pub struct CastFCoreChip;

impl CastFCoreChip {
    /// The name of the chip's one opcode, whatever number is asked for.
    pub fn get_opcode_name(&self, _opcode: usize) -> (r: String)
        ensures
            r@ == "CASTF"@,
    {
        CastfOpcode::CASTF.name()
    }

    /// Casts the value read by the adapter; the four bytes are what the adapter writes.
    pub fn execute_instruction(&self, opcode: VmOpcode, y: BabyBear) -> (r: ([BabyBear; 4], CastFRecord))
        requires
            opcode.v == CastfOpcode::CLASS_OFFSET,
            y.v < BABY_BEAR_P,
        ensures
            forall|i: int| 0 <= i < 4 ==> #[trigger] r.0[i].v == byte(y.v, i),
            r.1.in_val == y,
            forall|i: int| 0 <= i < 4 ==> #[trigger] r.1.out_val[i] == byte(y.v, i),
    {
        let x = CastF::solve(y.as_canonical_u32());
        proof {
            lemma_cast_bytes_recompose(y.v);
        }
        let writes = [
            BabyBear::from_canonical_u32(x[0]),
            BabyBear::from_canonical_u32(x[1]),
            BabyBear::from_canonical_u32(x[2]),
            BabyBear::from_canonical_u32(x[3]),
        ];
        (writes, CastFRecord { in_val: y, out_val: x })
    }

    /// The trace row of a record, and the range checks it requests: `(limb, bits)` for each
    /// limb, eight bits for all but the last, six for the last.
    pub fn generate_trace_row(&self, record: &CastFRecord) -> (r: (
        CastFCoreCols<BabyBear>,
        Vec<(u32, usize)>,
    ))
        requires
            forall|i: int| 0 <= i < 4 ==> #[trigger] record.out_val[i] < BABY_BEAR_P,
        ensures
            r.0.in_val == record.in_val,
            forall|i: int| 0 <= i < 4 ==> #[trigger] r.0.out_val[i].v == record.out_val[i],
            r.0.is_valid.v == 1,
            r.1@ == seq![
                (record.out_val[0], LIMB_BITS),
                (record.out_val[1], LIMB_BITS),
                (record.out_val[2], LIMB_BITS),
                (record.out_val[3], FINAL_LIMB_BITS),
            ],
    {
        let mut checks: Vec<(u32, usize)> = Vec::new();
        checks.push((record.out_val[0], LIMB_BITS));
        checks.push((record.out_val[1], LIMB_BITS));
        checks.push((record.out_val[2], LIMB_BITS));
        checks.push((record.out_val[3], FINAL_LIMB_BITS));
        let cols = CastFCoreCols {
            in_val: record.in_val,
            out_val: [
                BabyBear::from_canonical_u32(record.out_val[0]),
                BabyBear::from_canonical_u32(record.out_val[1]),
                BabyBear::from_canonical_u32(record.out_val[2]),
                BabyBear::from_canonical_u32(record.out_val[3]),
            ],
            is_valid: BabyBear::one(),
        };
        assert(checks@ =~= seq![
            (record.out_val[0], LIMB_BITS),
            (record.out_val[1], LIMB_BITS),
            (record.out_val[2], LIMB_BITS),
            (record.out_val[3], FINAL_LIMB_BITS),
        ]);
        (cols, checks)
    }
}

/// What one field-extension instruction recorded.
#[derive(Clone, Copy, Debug)]
pub struct FieldExtensionRecord {
    pub opcode: FieldExtensionOpcode,
    pub x: [BabyBear; 4],
    pub y: [BabyBear; 4],
    pub z: [BabyBear; 4],
}

/// The core columns of the field-extension chip.
#[derive(Clone, Copy, Debug)]
pub struct FieldExtensionCoreCols<T> {
    pub x: [T; 4],
    pub y: [T; 4],
    pub z: [T; 4],
    pub is_add: T,
    pub is_sub: T,
    pub is_mul: T,
    pub is_div: T,
    /// The inverse of `z` for a division, zero otherwise.
    pub divisor_inv: [T; 4],
}

/// The core of the field-extension chip; `offset` is the opcode class offset.
pub struct FieldExtensionCoreChip {
    pub offset: usize,
}

impl FieldExtensionCoreChip {
    /// The name of the opcode with the given global number.
    pub fn get_opcode_name(&self, opcode: usize) -> (r: String)
        requires
            self.offset <= opcode < self.offset + 4,
        ensures
            forall|o: FieldExtensionOpcode| o.spec_local() == opcode - self.offset ==> r@ == o.name_spec(),
    {
        let op = FieldExtensionOpcode::from_usize(opcode - self.offset);
        match op {
            Some(o) => o.name(),
            None => String::new(),
        }
    }

    /// Computes `x = y op z` for the opcode of the instruction.
    pub fn execute_instruction(&self, opcode: VmOpcode, y: [BabyBear; 4], z: [BabyBear; 4]) -> (r: (
        [BabyBear; 4],
        FieldExtensionRecord,
    ))
        requires
            self.offset <= opcode.v < self.offset + 4,
            opcode.v == self.offset + 3 ==> modp(ext_norm(ext_vals(z))) != 0,
        ensures
            all_canonical4(r.0),
            r.1.x == r.0,
            r.1.y == y,
            r.1.z == z,
            r.1.opcode.spec_local() == opcode.v - self.offset,
            opcode.v == self.offset ==> ext_vals(r.0) == ext_add_spec(y, z),
            opcode.v == self.offset + 1 ==> ext_vals(r.0) == ext_sub_spec(y, z),
            opcode.v == self.offset + 2 ==> ext_vals(r.0) == ext_mul_spec(y, z),
            opcode.v == self.offset + 3 ==> ext_vals(r.0) == ext_div_spec(y, z),
    {
        let local = opcode.local_opcode_idx(self.offset);
        let op = match FieldExtensionOpcode::from_usize(local) {
            Some(op) => op,
            None => FieldExtensionOpcode::FE4ADD,
        };
        let x = match FieldExtension::solve(op, y, z) {
            Some(x) => x,
            None => y,
        };
        (x, FieldExtensionRecord { opcode: op, x, y, z })
    }

    /// The trace row of a record.
    pub fn generate_trace_row(&self, record: &FieldExtensionRecord) -> (r: FieldExtensionCoreCols<
        BabyBear,
    >)
        requires
            record.opcode is BBE4DIV ==> modp(ext_norm(ext_vals(record.z))) != 0,
        ensures
            r.x == record.x,
            r.y == record.y,
            r.z == record.z,
            r.is_add.v == (if record.opcode is FE4ADD { 1u32 } else { 0u32 }),
            r.is_sub.v == (if record.opcode is FE4SUB { 1u32 } else { 0u32 }),
            r.is_mul.v == (if record.opcode is BBE4MUL { 1u32 } else { 0u32 }),
            r.is_div.v == (if record.opcode is BBE4DIV { 1u32 } else { 0u32 }),
            record.opcode is BBE4DIV ==> all_canonical4(r.divisor_inv) && ext_mul_spec(
                record.z,
                r.divisor_inv,
            ) == ext_one() && ext_vals(r.divisor_inv) == ext_inv(ext_vals(record.z)),
            !(record.opcode is BBE4DIV) ==> forall|i: int| 0 <= i < 4 ==> #[trigger] r.divisor_inv[i].v == 0,
    {
        let flag = |b: bool| -> (f: BabyBear)
            ensures
                f.v == (if b { 1u32 } else { 0u32 }),
            {
                if b {
                    BabyBear::one()
                } else {
                    BabyBear::zero()
                }
            };
        let is_div = match record.opcode {
            FieldExtensionOpcode::BBE4DIV => true,
            _ => false,
        };
        let divisor_inv = if is_div {
            FieldExtension::invert(record.z)
        } else {
            [BabyBear::zero(), BabyBear::zero(), BabyBear::zero(), BabyBear::zero()]
        };
        FieldExtensionCoreCols {
            x: record.x,
            y: record.y,
            z: record.z,
            is_add: flag(record.opcode == FieldExtensionOpcode::FE4ADD),
            is_sub: flag(record.opcode == FieldExtensionOpcode::FE4SUB),
            is_mul: flag(record.opcode == FieldExtensionOpcode::BBE4MUL),
            is_div: flag(is_div),
            divisor_inv,
        }
    }
}

/// The result of a field-extension opcode with local index `local`.
pub open spec fn fe_result(local: int, y: [BabyBear; 4], z: [BabyBear; 4]) -> Seq<int> {
    if local == 0 {
        ext_add_spec(y, z)
    } else if local == 1 {
        ext_sub_spec(y, z)
    } else if local == 2 {
        ext_mul_spec(y, z)
    } else {
        ext_div_spec(y, z)
    }
}

/// A flag is 0 or 1.
pub open spec fn flag_ok(f: BabyBear) -> bool {
    f.v == 0 || f.v == 1
}

/// The constraints of the field-extension core on one row: the four flags are boolean and at
/// most one is set; each coordinate of `x` is the flag-weighted sum of `y + z`, `y - z`,
/// `y * z` and `y * divisor_inv`; and `z * divisor_inv` is `is_div` (and zero elsewhere).
pub open spec fn fe_row_ok(c: FieldExtensionCoreCols<BabyBear>) -> bool {
    let a = ext_add_spec(c.y, c.z);
    let s = ext_sub_spec(c.y, c.z);
    let m = ext_mul_spec(c.y, c.z);
    let d = ext_mul_spec(c.y, c.divisor_inv);
    &&& flag_ok(c.is_add) && flag_ok(c.is_sub) && flag_ok(c.is_mul) && flag_ok(c.is_div)
    &&& c.is_add.v + c.is_sub.v + c.is_mul.v + c.is_div.v <= 1
    &&& forall|j: int|
        0 <= j < 4 ==> modp(#[trigger] c.x[j].val()) == modp(
            c.is_add.val() * a[j] + c.is_sub.val() * s[j] + c.is_mul.val() * m[j] + c.is_div.val()
                * d[j],
        )
    &&& ext_mul_spec(c.z, c.divisor_inv) == seq![c.is_div.val(), 0, 0, 0]
}

/// `f0 v0 + f1 v1 + f2 v2 + f3 v3`.
fn dot4(f: [BabyBear; 4], v: [BabyBear; 4]) -> (r: BabyBear)
    ensures
        r.val() == modp(
            f[0].val() * v[0].val() + f[1].val() * v[1].val() + f[2].val() * v[2].val() + f[3].val()
                * v[3].val(),
        ),
{
    let t0 = f[0].mul(v[0]);
    let t1 = f[1].mul(v[1]);
    let t2 = f[2].mul(v[2]);
    let t3 = f[3].mul(v[3]);
    let s01 = t0.add(t1);
    let s012 = s01.add(t2);
    let r = s012.add(t3);
    proof {
        let (p0, p1, p2, p3) = (
            f[0].val() * v[0].val(),
            f[1].val() * v[1].val(),
            f[2].val() * v[2].val(),
            f[3].val() * v[3].val(),
        );
        crate::field::lemma_modp_basics(p0);
        crate::field::lemma_modp_basics(p1);
        crate::field::lemma_modp_basics(p2);
        crate::field::lemma_modp_basics(p3);
        crate::field::lemma_eqm_add(t0.val(), p0, t1.val(), p1);
        crate::field::lemma_modp_basics(t0.val() + t1.val());
        crate::field::lemma_eqm_add(s01.val(), p0 + p1, t2.val(), p2);
        crate::field::lemma_modp_basics(s01.val() + t2.val());
        crate::field::lemma_eqm_add(s012.val(), p0 + p1 + p2, t3.val(), p3);
    }
    r
}

/// The core AIR of the field-extension chip; `offset` is the opcode class offset.
pub struct FieldExtensionCoreAir {
    pub offset: usize,
}

impl FieldExtensionCoreAir {
    /// Evaluates the core constraints on a row of canonical values; also returns whether the
    /// row is an instruction and the opcode it stands for.
    pub fn eval(&self, c: &FieldExtensionCoreCols<BabyBear>) -> (r: (bool, BabyBear, BabyBear))
        requires
            all_canonical4(c.x),
            all_canonical4(c.y),
            all_canonical4(c.z),
            all_canonical4(c.divisor_inv),
            c.is_add.v < BABY_BEAR_P && c.is_sub.v < BABY_BEAR_P && c.is_mul.v < BABY_BEAR_P
                && c.is_div.v < BABY_BEAR_P,
            self.offset < BABY_BEAR_P,
        ensures
            r.0 == fe_row_ok(*c),
            r.1.val() == modp(c.is_add.val() + c.is_sub.val() + c.is_mul.val() + c.is_div.val()),
            r.2.val() == modp(
                self.offset + c.is_sub.val() + 2 * c.is_mul.val() + 3 * c.is_div.val(),
            ),
    {
        let flags = [c.is_add, c.is_sub, c.is_mul, c.is_div];
        let flags_bool = (c.is_add.v == 0 || c.is_add.v == 1) && (c.is_sub.v == 0 || c.is_sub.v
            == 1) && (c.is_mul.v == 0 || c.is_mul.v == 1) && (c.is_div.v == 0 || c.is_div.v == 1);
        let is_valid = c.is_add.add(c.is_sub).add(c.is_mul).add(c.is_div);
        proof {
            if flags_bool {
                crate::field::lemma_modp_small(c.is_add.val() + c.is_sub.val());
                crate::field::lemma_modp_small(c.is_add.val() + c.is_sub.val() + c.is_mul.val());
                crate::field::lemma_modp_small(
                    c.is_add.val() + c.is_sub.val() + c.is_mul.val() + c.is_div.val(),
                );
            }
            crate::field::lemma_modp_basics(c.is_add.val() + c.is_sub.val());
            crate::field::lemma_eqm_add(
                modp(c.is_add.val() + c.is_sub.val()),
                c.is_add.val() + c.is_sub.val(),
                c.is_mul.val(),
                c.is_mul.val(),
            );
            crate::field::lemma_modp_basics(c.is_add.val() + c.is_sub.val() + c.is_mul.val());
            crate::field::lemma_eqm_add(
                modp(c.is_add.val() + c.is_sub.val() + c.is_mul.val()),
                c.is_add.val() + c.is_sub.val() + c.is_mul.val(),
                c.is_div.val(),
                c.is_div.val(),
            );
        }
        let valid_bool = is_valid.v == 0 || is_valid.v == 1;
        let a = FieldExtension::add(c.y, c.z);
        let s = FieldExtension::subtract(c.y, c.z);
        let m = FieldExtension::multiply(c.y, c.z);
        let d = FieldExtension::multiply(c.y, c.divisor_inv);
        let mut results_ok = true;
        let mut j: usize = 0;
        while j < 4
            invariant
                j <= 4,
                all_canonical4(c.x),
                ext_vals(a) == ext_add_spec(c.y, c.z),
                ext_vals(s) == ext_sub_spec(c.y, c.z),
                ext_vals(m) == ext_mul_spec(c.y, c.z),
                ext_vals(d) == ext_mul_spec(c.y, c.divisor_inv),
                flags == [c.is_add, c.is_sub, c.is_mul, c.is_div],
                results_ok <==> forall|i: int|
                    0 <= i < j ==> modp(#[trigger] c.x[i].val()) == modp(
                        c.is_add.val() * ext_add_spec(c.y, c.z)[i] + c.is_sub.val() * ext_sub_spec(
                            c.y,
                            c.z,
                        )[i] + c.is_mul.val() * ext_mul_spec(c.y, c.z)[i] + c.is_div.val()
                            * ext_mul_spec(c.y, c.divisor_inv)[i],
                    ),
            decreases 4 - j,
        {
            let e = dot4(flags, [a[j], s[j], m[j], d[j]]);
            proof {
                assert(c.x[j as int].canonical());
                crate::field::lemma_modp_small(c.x[j as int].val());
                crate::field::lemma_modp_basics(e.val());
            }
            if c.x[j].v != e.v {
                results_ok = false;
            }
            j = j + 1;
        }
        let zi = FieldExtension::multiply(c.z, c.divisor_inv);
        let inv_ok = zi[0].v == c.is_div.v && zi[1].v == 0 && zi[2].v == 0 && zi[3].v == 0;
        proof {
            assert(inv_ok <==> ext_vals(zi) =~= seq![c.is_div.val(), 0, 0, 0]);
        }
        let ok = flags_bool && valid_bool && results_ok && inv_ok;
        let local = c.is_sub.add(c.is_mul.mul(BabyBear::two())).add(
            c.is_div.mul(BabyBear::from_canonical_u32(3)),
        );
        let opcode = BabyBear::from_canonical_usize(self.offset).add(local);
        proof {
            let (vs, vm, vd) = (c.is_sub.val(), c.is_mul.val(), c.is_div.val());
            crate::field::lemma_modp_small(2);
            crate::field::lemma_modp_small(3);
            crate::field::lemma_modp_basics(vm * 2);
            crate::field::lemma_modp_basics(vd * 3);
            crate::field::lemma_eqm_add(vs, vs, modp(vm * 2), vm * 2);
            crate::field::lemma_modp_basics(vs + vm * 2);
            crate::field::lemma_eqm_add(modp(vs + vm * 2), vs + vm * 2, modp(vd * 3), vd * 3);
            crate::field::lemma_modp_basics(vs + vm * 2 + vd * 3);
            crate::field::lemma_eqm_add(self.offset as int, self.offset as int, local.val(), vs + vm * 2 + vd * 3);
        }
        (ok, is_valid, opcode)
    }
}

/// The trace row of an executed field-extension instruction satisfies the core constraints:
/// for any opcode and operands in the chip's domain, the row holding the flags of the opcode,
/// the operands, the result of execution and (for a division) the inverse of the divisor.
pub proof fn lemma_field_extension_row_satisfies_air(row: FieldExtensionCoreCols<BabyBear>, local: int)
    requires
        0 <= local < 4,
        all_canonical4(row.y),
        all_canonical4(row.z),
        all_canonical4(row.x),
        ext_vals(row.x) == fe_result(local, row.y, row.z),
        row.is_add.v == (if local == 0 { 1u32 } else { 0u32 }),
        row.is_sub.v == (if local == 1 { 1u32 } else { 0u32 }),
        row.is_mul.v == (if local == 2 { 1u32 } else { 0u32 }),
        row.is_div.v == (if local == 3 { 1u32 } else { 0u32 }),
        local == 3 ==> ext_vals(row.divisor_inv) == ext_inv(ext_vals(row.z)) && ext_mul_spec(
            row.z,
            row.divisor_inv,
        ) == ext_one(),
        local != 3 ==> forall|i: int| 0 <= i < 4 ==> #[trigger] row.divisor_inv[i].v == 0,
    ensures
        fe_row_ok(row),
{
    let a = ext_add_spec(row.y, row.z);
    let s = ext_sub_spec(row.y, row.z);
    let m = ext_mul_spec(row.y, row.z);
    let d = ext_mul_spec(row.y, row.divisor_inv);
    let r = fe_result(local, row.y, row.z);
    assert forall|j: int| 0 <= j < 4 implies modp(#[trigger] row.x[j].val()) == modp(
        row.is_add.val() * a[j] + row.is_sub.val() * s[j] + row.is_mul.val() * m[j] + row.is_div.val()
            * d[j],
    ) by {
        assert(row.x[j].val() == r[j]);
        if local == 3 {
            assert(d =~= ext_div_spec(row.y, row.z));
        }
    }
    if local != 3 {
        assert(row.divisor_inv[0].v == 0 && row.divisor_inv[1].v == 0 && row.divisor_inv[2].v == 0
            && row.divisor_inv[3].v == 0);
        crate::field::lemma_modp_small(0);
        assert(ext_mul_spec(row.z, row.divisor_inv) =~= seq![row.is_div.val(), 0, 0, 0]);
    } else {
        assert(ext_mul_spec(row.z, row.divisor_inv) =~= seq![row.is_div.val(), 0, 0, 0]);
    }
}

/// The constraints of the cast core on one row: `is_valid` is boolean and the input is the
/// little-endian composition of the four output limbs.
pub open spec fn cast_row_ok(c: CastFCoreCols<BabyBear>) -> bool {
    &&& flag_ok(c.is_valid)
    &&& modp(c.in_val.val()) == modp(
        c.out_val[0].val() + 256 * c.out_val[1].val() + 65536 * c.out_val[2].val() + 16777216
            * c.out_val[3].val(),
    )
}

/// The core AIR of the cast chip.
pub struct CastFCoreAir;

impl CastFCoreAir {
    /// Evaluates the core constraints on a row, and returns the range checks the row sends
    /// to the range checker when it is valid: eight bits for the first three limbs, six for
    /// the last.
    pub fn eval(&self, c: &CastFCoreCols<BabyBear>) -> (r: (bool, Vec<(BabyBear, usize)>))
        requires
            c.in_val.v < BABY_BEAR_P,
            c.is_valid.v < BABY_BEAR_P,
            forall|i: int| 0 <= i < 4 ==> #[trigger] c.out_val[i].v < BABY_BEAR_P,
        ensures
            r.0 == cast_row_ok(*c),
            c.is_valid.v == 1 ==> r.1@ == seq![
                (c.out_val[0], LIMB_BITS),
                (c.out_val[1], LIMB_BITS),
                (c.out_val[2], LIMB_BITS),
                (c.out_val[3], FINAL_LIMB_BITS),
            ],
            c.is_valid.v != 1 ==> r.1@.len() == 0,
    {
        let weights = [
            BabyBear::one(),
            BabyBear::from_canonical_u32(256),
            BabyBear::from_canonical_u32(65536),
            BabyBear::from_canonical_u32(16777216),
        ];
        let composed = dot4(c.out_val, weights);
        proof {
            crate::field::lemma_modp_small(c.in_val.val());
            crate::field::lemma_modp_basics(composed.val());
            assert(c.out_val[0].val() * 1 + c.out_val[1].val() * 256 + c.out_val[2].val() * 65536
                + c.out_val[3].val() * 16777216 == c.out_val[0].val() + 256 * c.out_val[1].val()
                + 65536 * c.out_val[2].val() + 16777216 * c.out_val[3].val());
        }
        let ok = (c.is_valid.v == 0 || c.is_valid.v == 1) && composed.v == c.in_val.v;
        let mut checks: Vec<(BabyBear, usize)> = Vec::new();
        if c.is_valid.v == 1 {
            checks.push((c.out_val[0], LIMB_BITS));
            checks.push((c.out_val[1], LIMB_BITS));
            checks.push((c.out_val[2], LIMB_BITS));
            checks.push((c.out_val[3], FINAL_LIMB_BITS));
            assert(checks@ =~= seq![
                (c.out_val[0], LIMB_BITS),
                (c.out_val[1], LIMB_BITS),
                (c.out_val[2], LIMB_BITS),
                (c.out_val[3], FINAL_LIMB_BITS),
            ]);
        }
        (ok, checks)
    }
}

/// The trace row of a cast satisfies the core constraints, and its limbs pass their range
/// checks when the input is below `2^30`.
pub proof fn lemma_castf_row_satisfies_air(y: BabyBear, row: CastFCoreCols<BabyBear>)
    requires
        y.v < BABY_BEAR_P,
        row.in_val == y,
        row.is_valid.v == 1,
        forall|i: int| 0 <= i < 4 ==> #[trigger] row.out_val[i].v == byte(y.v, i),
    ensures
        cast_row_ok(row),
        row.out_val[0].v < 256 && row.out_val[1].v < 256 && row.out_val[2].v < 256,
        y.v < 0x4000_0000 ==> row.out_val[3].v < 64,
{
    lemma_cast_bytes_recompose(y.v);
    assert(row.out_val[0].v == byte(y.v, 0));
    assert(row.out_val[1].v == byte(y.v, 1));
    assert(row.out_val[2].v == byte(y.v, 2));
    assert(row.out_val[3].v == byte(y.v, 3));
    reveal_with_fuel(pow256, 4);
    assert(byte(y.v, 3) == (y.v / 16777216) % 256);
}

} // verus!
