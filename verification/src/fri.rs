//! The FRI reduced-opening chip: `result = sum_i (b_i - a_i) * alpha^i * alpha_pow`, over the
//! base-field values `a_i` and extension values `b_i` of two arrays in memory, with the running
//! power of `alpha` written back.
use crate::conversion::Instruction;
use crate::extension::{
    eqm4, ext_add_int, ext_mul_int, ext_one, lemma_ext_mul_cong2, ext_sub_int, ext_vals, lemma_ext_mul_congruent, reduce4,
    FieldExtension,
};
use crate::field::{all_canonical4, lemma_modp_basics, lemma_modp_small, modp, BabyBear, BABY_BEAR_P};
use crate::machine::{cell, cells, written, ExecutionState, Memory, MemoryModel, Streams};
use crate::opcodes::{FriOpcode, DEFAULT_PC_STEP};
use crate::bus::{execution_message, is_interaction, memory_message, vals, Bus, Interaction};
use vstd::prelude::*;
use vstd::string::StringExecFns;
use vstd::pervasive::VecAdditionalExecFns;

verus! {

/// The extension element with base coordinate `elem`.
pub fn elem_to_ext(elem: BabyBear) -> (r: [BabyBear; 4])
    ensures
        r[0] == elem,
        r[1].v == 0 && r[2].v == 0 && r[3].v == 0,
{
    let mut ret = [BabyBear::zero(), BabyBear::zero(), BabyBear::zero(), BabyBear::zero()];
    ret[0] = elem;
    ret
}

pub open spec fn eadd(x: Seq<int>, y: Seq<int>) -> Seq<int> {
    reduce4(ext_add_int(x, y))
}

pub open spec fn esub(x: Seq<int>, y: Seq<int>) -> Seq<int> {
    reduce4(ext_sub_int(x, y))
}

pub open spec fn emul(x: Seq<int>, y: Seq<int>) -> Seq<int> {
    reduce4(ext_mul_int(x, y))
}

pub open spec fn zero4() -> Seq<int> {
    seq![0int, 0, 0, 0]
}

/// The running sum and the running power of `alpha` after `n` terms of the base values `a`
/// and the extension values `b`.
pub open spec fn fri_sum(
    a: Seq<int>,
    b: Seq<Seq<int>>,
    alpha: Seq<int>,
    alpha_pow: Seq<int>,
    n: nat,
) -> (Seq<int>, Seq<int>)
    decreases n,
{
    if n == 0 {
        (zero4(), alpha_pow)
    } else {
        let (r, ap) = fri_sum(a, b, alpha, alpha_pow, (n - 1) as nat);
        let i = n - 1;
        (eadd(r, emul(esub(b[i], seq![a[i], 0, 0, 0]), ap)), emul(alpha, ap))
    }
}

/// The native address space, which holds the operands and arrays of a reduced opening.
pub const FRI_AS: u32 = 4;

/// The number of terms, read from `[c]`.
pub open spec fn fri_length(m: MemoryModel, ins: Instruction) -> nat {
    cell(m, FRI_AS, ins.c.v as int).v as nat
}

/// Whether the base values are read from memory (`[g]` nonzero) rather than taken from hints.
pub open spec fn fri_is_init(m: MemoryModel, ins: Instruction) -> bool {
    cell(m, FRI_AS, ins.g.v as int).v != 0
}

/// The id of the hint space the base values come from, read from `[f]`.
pub open spec fn fri_hint_id(m: MemoryModel, ins: Instruction) -> int {
    cell(m, FRI_AS, ins.f.v as int).v as int
}

/// `alpha`, in the four cells from `d` on.
pub open spec fn fri_alpha(m: MemoryModel, ins: Instruction) -> Seq<int> {
    Seq::new(4, |k: int| cell(m, FRI_AS, ins.d.v + k).val())
}

/// The base values of a reduced opening: read from `a_ptr + i`, or the first hints of the
/// hint space.
pub open spec fn fri_a_values(m: MemoryModel, hints: Seq<Vec<BabyBear>>, ins: Instruction) -> Seq<
    BabyBear,
> {
    let n = fri_length(m, ins);
    let a_ptr = cell(m, FRI_AS, ins.a.v as int);
    if fri_is_init(m, ins) {
        Seq::new(n, |j: int| cell(m, FRI_AS, modp(a_ptr.val() + j)))
    } else {
        hints[fri_hint_id(m, ins)]@.take(n as int)
    }
}

/// Cell `q` of address space `asp` once the first `k` base values have been written from
/// `a_ptr` on (when `wrote`), the memory being `m0` before.
pub open spec fn fri_cell_after(
    m0: MemoryModel,
    a_ptr: BabyBear,
    avals: Seq<BabyBear>,
    wrote: bool,
    k: int,
    asp: u32,
    q: int,
) -> BabyBear {
    let j = modp(q - a_ptr.val());
    if wrote && asp == FRI_AS && 0 <= q < BABY_BEAR_P && j < k {
        avals[j]
    } else {
        cell(m0, asp, q)
    }
}

/// The extension values of a reduced opening: `b_i` is read from `b_ptr + 4 i` once the base
/// values up to `a_i` have been written.
pub open spec fn fri_b_values(m: MemoryModel, hints: Seq<Vec<BabyBear>>, ins: Instruction) -> Seq<
    Seq<int>,
> {
    let n = fri_length(m, ins);
    let a_ptr = cell(m, FRI_AS, ins.a.v as int);
    let b_ptr = cell(m, FRI_AS, ins.b.v as int);
    let avals = fri_a_values(m, hints, ins);
    let wrote = !fri_is_init(m, ins);
    Seq::new(
        n,
        |i: int|
            {
                let p = modp(b_ptr.val() + 4 * i);
                seq![
                    fri_cell_after(m, a_ptr, avals, wrote, i + 1, FRI_AS, p).val(),
                    fri_cell_after(m, a_ptr, avals, wrote, i + 1, FRI_AS, p + 1).val(),
                    fri_cell_after(m, a_ptr, avals, wrote, i + 1, FRI_AS, p + 2).val(),
                    fri_cell_after(m, a_ptr, avals, wrote, i + 1, FRI_AS, p + 3).val(),
                ]
            },
    )
}

/// `q` is the `i`-th cell from `a` exactly when `i` is the distance from `a` to `q`.
proof fn lemma_offset_unique(a: int, i: int, q: int)
    requires
        0 <= i < BABY_BEAR_P,
        0 <= q < BABY_BEAR_P,
    ensures
        (q == modp(a + i)) == (i == modp(q - a)),
{
    lemma_modp_small(q);
    lemma_modp_small(i);
    vstd::arithmetic::div_mod::lemma_mod_equivalence(q, a + i, BABY_BEAR_P as int);
    vstd::arithmetic::div_mod::lemma_mod_equivalence(q - a, i, BABY_BEAR_P as int);
    assert(q - (a + i) == (q - a) - i);
}

/// One step of the base values: `a_i` is what was written or read, and the memory is the one
/// after `i + 1` values.
proof fn lemma_fri_a_step(
    m0: MemoryModel,
    before: MemoryModel,
    after: MemoryModel,
    a_ptr: BabyBear,
    avals: Seq<BabyBear>,
    wrote: bool,
    i: int,
    a: BabyBear,
)
    requires
        0 <= i < avals.len(),
        avals.len() < BABY_BEAR_P,
        forall|asp: u32, q: int|
            0 <= q < 0x1_0000_0000 ==> #[trigger] cell(before, asp, q) == fri_cell_after(
                m0,
                a_ptr,
                avals,
                wrote,
                i,
                asp,
                q,
            ),
        wrote ==> a == avals[i] && written(before, after, FRI_AS, modp(a_ptr.val() + i), seq![a]),
        !wrote ==> after.cells == before.cells && a == cell(before, FRI_AS, modp(a_ptr.val() + i))
            && avals[i] == cell(m0, FRI_AS, modp(a_ptr.val() + i)),
    ensures
        a == avals[i],
        forall|asp: u32, q: int|
            0 <= q < 0x1_0000_0000 ==> #[trigger] cell(after, asp, q) == fri_cell_after(
                m0,
                a_ptr,
                avals,
                wrote,
                i + 1,
                asp,
                q,
            ),
{
    let p = modp(a_ptr.val() + i);
    lemma_modp_basics(a_ptr.val() + i);
    assert(p < 0x1_0000_0000);
    if !wrote {
        assert(cell(before, FRI_AS, p) == cell(m0, FRI_AS, p));
        assert forall|asp: u32, q: int| 0 <= q < 0x1_0000_0000 implies #[trigger] cell(after, asp, q)
            == fri_cell_after(m0, a_ptr, avals, wrote, i + 1, asp, q) by {
            assert(cell(after, asp, q) == cell(before, asp, q));
        }
    } else {
        assert forall|asp: u32, q: int| 0 <= q < 0x1_0000_0000 implies #[trigger] cell(after, asp, q)
            == fri_cell_after(m0, a_ptr, avals, wrote, i + 1, asp, q) by {
            assert(cell(before, asp, q) == fri_cell_after(m0, a_ptr, avals, wrote, i, asp, q));
            if asp == FRI_AS && 0 <= q < BABY_BEAR_P {
                lemma_offset_unique(a_ptr.val(), i, q);
                lemma_modp_basics(q - a_ptr.val());
            }
        }
    }
}

/// Takes the first `n` values of hint space `id`.
fn take_hints(streams: &mut Streams, id: usize, n: usize) -> (r: Vec<BabyBear>)
    requires
        id < old(streams).hint_space@.len(),
        n <= old(streams).hint_space@[id as int]@.len(),
    ensures
        r@ == old(streams).hint_space@[id as int]@.take(n as int),
        final(streams).hint_space@.len() == old(streams).hint_space@.len(),
        final(streams).hint_space@[id as int]@ == old(streams).hint_space@[id as int]@.skip(n as int),
        forall|k: int|
            0 <= k < old(streams).hint_space@.len() && k != id ==> #[trigger] final(streams).hint_space@[k]
                == old(streams).hint_space@[k],
        final(streams).input_stream@ == old(streams).input_stream@,
        final(streams).hint_stream@ == old(streams).hint_stream@,
{
    let mut taken: Vec<BabyBear> = Vec::new();
    let mut rest: Vec<BabyBear> = Vec::new();
    let len = streams.hint_space[id].len();
    let mut i: usize = 0;
    while i < len
        invariant
            id < streams.hint_space@.len(),
            *streams == *old(streams),
            len == streams.hint_space@[id as int]@.len(),
            n <= len,
            i <= len,
            taken@ == streams.hint_space@[id as int]@.take(if i < n { i as int } else { n as int }),
            rest@ == if i < n { Seq::empty() } else { streams.hint_space@[id as int]@.subrange(n as int, i as int) },
        decreases len - i,
    {
        let x = streams.hint_space[id][i];
        if i < n {
            taken.push(x);
            proof {
                assert(streams.hint_space@[id as int]@.take(i + 1) =~= streams.hint_space@[id as int]@.take(i as int).push(x));
            }
        } else {
            rest.push(x);
            proof {
                assert(streams.hint_space@[id as int]@.subrange(n as int, i + 1) =~= streams.hint_space@[id as int]@.subrange(n as int, i as int).push(x));
            }
        }
        i = i + 1;
    }
    proof {
        if n == len {
            assert(streams.hint_space@[id as int]@.skip(n as int) =~= Seq::<BabyBear>::empty());
        }
        assert(rest@ =~= old(streams).hint_space@[id as int]@.skip(n as int));
    }
    streams.hint_space.set(id, rest);
    taken
}

/// What one execution recorded: where it started, the instruction, and every value read.
#[derive(Clone, Debug)]
pub struct FriReducedOpeningRecord {
    pub pc: BabyBear,
    pub start_timestamp: BabyBear,
    pub instruction: Instruction,
    pub alpha: [BabyBear; 4],
    pub length: usize,
    pub a_ptr: BabyBear,
    pub b_ptr: BabyBear,
    pub a_values: Vec<BabyBear>,
    pub b_values: Vec<[BabyBear; 4]>,
    /// The power of `alpha` the sum starts from: one.
    pub alpha_pow_original: [BabyBear; 4],
    /// The initialisation flag read: zero when the base values came from the hints.
    pub is_init: BabyBear,
}

/// The base and extension values of a record, as integers.
pub open spec fn record_values(r: FriReducedOpeningRecord) -> (Seq<int>, Seq<Seq<int>>) {
    (
        Seq::new(r.a_values@.len(), |i: int| r.a_values@[i].val()),
        Seq::new(r.b_values@.len(), |i: int| ext_vals(r.b_values@[i])),
    )
}

/// The chip: its records and the number of trace rows they fill.
pub struct FriReducedOpeningChip {
    pub offset: usize,
    pub records: Vec<FriReducedOpeningRecord>,
    pub height: usize,
}

fn to_array(v: &Vec<BabyBear>) -> (r: [BabyBear; 4])
    requires
        v@.len() == 4,
    ensures
        r[0] == v@[0] && r[1] == v@[1] && r[2] == v@[2] && r[3] == v@[3],
{
    [v[0], v[1], v[2], v[3]]
}

impl FriReducedOpeningChip {
    /// The name of the chip's one opcode, which is numbered by the offset.
    pub fn get_opcode_name(&self, opcode: usize) -> (r: String)
        requires
            opcode == self.offset,
        ensures
            r@ == "FRI_REDUCED_OPENING"@,
    {
        FriOpcode::FRI_REDUCED_OPENING.name()
    }

    /// The name of the chip's AIR.
    pub fn air_name(&self) -> (r: String)
        ensures
            r@ == "FriReducedOpeningAir"@,
    {
        String::from_str("FriReducedOpeningAir")
    }

    /// The number of rows the executed instructions take.
    pub fn current_trace_height(&self) -> (r: usize)
        ensures
            r == self.height,
    {
        self.height
    }

    pub fn new(offset: usize) -> (r: Self)
        ensures
            r.offset == offset,
            r.records@.len() == 0,
            r.height == 0,
    {
        FriReducedOpeningChip { offset, records: Vec::new(), height: 0 }
    }

    /// Executes one reduced opening, in the native address space.  The operands are pointers:
    /// `a` to the pointer of the base array, `b` to the pointer of the extension array, `c` to
    /// the length, `d` to `alpha`, `e` to the result, `f` to the hint id and `g` to the
    /// initialisation flag.  Where the flag is zero, the base values are taken from the front
    /// of the hint space with that id and written into the base array; otherwise they are read
    /// from it.  The result is the sum of `(b_i - a_i) * alpha^i`.
    #[verifier::spinoff_prover]
    #[verifier::rlimit(80)]
    pub fn execute(
        &mut self,
        memory: &mut Memory,
        streams: &mut Streams,
        instruction: &Instruction,
        from_state: ExecutionState,
    ) -> (r: ExecutionState)
        requires
            old(memory)@.timestamp == from_state.timestamp,
            from_state.pc + DEFAULT_PC_STEP <= u32::MAX,
            from_state.timestamp + 6 + 2 * fri_length(old(memory)@, *instruction) < 0xffff_ffff,
            4 * fri_length(old(memory)@, *instruction) < BABY_BEAR_P,
            old(self).height + fri_length(old(memory)@, *instruction) <= usize::MAX,
            instruction.d.v + 4 <= 0x1_0000_0000,
            instruction.e.v + 4 <= 0x1_0000_0000,
            !fri_is_init(old(memory)@, *instruction) ==> {
                &&& fri_hint_id(old(memory)@, *instruction) < old(streams).hint_space@.len()
                &&& fri_length(old(memory)@, *instruction) <= old(streams).hint_space@[fri_hint_id(
                    old(memory)@,
                    *instruction,
                )]@.len()
            },
        ensures
            ({
                let m0 = old(memory)@;
                let n = fri_length(m0, *instruction);
                let init = fri_is_init(m0, *instruction);
                let hid = fri_hint_id(m0, *instruction);
                let a_ptr = cell(m0, FRI_AS, instruction.a.v as int);
                let b_ptr = cell(m0, FRI_AS, instruction.b.v as int);
                let avals = fri_a_values(m0, old(streams).hint_space@, *instruction);
                let a_int = Seq::new(n, |j: int| avals[j].val());
                let b_int = fri_b_values(m0, old(streams).hint_space@, *instruction);
                let result = fri_sum(a_int, b_int, fri_alpha(m0, *instruction), ext_one(), n).0;
                &&& r == ExecutionState {
                    pc: (from_state.pc + DEFAULT_PC_STEP) as u32,
                    timestamp: (from_state.timestamp + 6 + 2 * n) as u32,
                }
                &&& final(memory)@.timestamp == m0.timestamp + 6 + 2 * n
                &&& forall|asp: u32, q: int|
                    0 <= q < 0x1_0000_0000 ==> #[trigger] cell(final(memory)@, asp, q) == if asp
                        == FRI_AS && instruction.e.v <= q < instruction.e.v + 4 {
                        BabyBear { v: result[q - instruction.e.v] as u32 }
                    } else {
                        fri_cell_after(m0, a_ptr, avals, !init, n as int, asp, q)
                    }
                &&& init ==> final(streams).hint_space@ == old(streams).hint_space@
                &&& !init ==> final(streams).hint_space@.len() == old(streams).hint_space@.len()
                &&& !init ==> forall|k: int|
                    0 <= k < old(streams).hint_space@.len() ==> (#[trigger] final(streams).hint_space@[k])@
                        == if k == hid {
                        old(streams).hint_space@[k]@.skip(n as int)
                    } else {
                        old(streams).hint_space@[k]@
                    }
                &&& final(streams).input_stream@ == old(streams).input_stream@
                &&& final(streams).hint_stream@ == old(streams).hint_stream@
                &&& final(self).height == old(self).height + n
                &&& final(self).records@.len() == old(self).records@.len() + 1
                &&& final(self).records@.last().length == n
                &&& final(self).records@.last().a_values@ == avals
                &&& record_values(final(self).records@.last()).1 == b_int
                &&& ext_vals(final(self).records@.last().alpha) == fri_alpha(m0, *instruction)
                &&& ext_vals(final(self).records@.last().alpha_pow_original) == ext_one()
                &&& final(self).records@.last().is_init == cell(m0, FRI_AS, instruction.g.v as int)
                &&& final(self).records@.last().instruction == *instruction
                &&& final(self).records@.last().a_ptr == a_ptr
                &&& final(self).records@.last().b_ptr == b_ptr
                &&& final(self).records@.last().pc.val() == modp(from_state.pc as int)
                &&& final(self).records@.last().start_timestamp.val() == modp(
                    from_state.timestamp as int,
                )
            }),
            final(self).records@.drop_last() == old(self).records@,
            final(self).offset == old(self).offset,
            old(self).wf() ==> final(self).wf(),
    {
        let ghost m0 = memory@;
        let ghost hints0 = streams.hint_space@;
        let alpha_read = memory.read(FRI_AS, instruction.d.as_canonical_u32(), 4);
        let alpha = to_array(&alpha_read);
        let length_read = memory.read_cell(FRI_AS, instruction.c.as_canonical_u32());
        let a_ptr = memory.read_cell(FRI_AS, instruction.a.as_canonical_u32());
        let b_ptr = memory.read_cell(FRI_AS, instruction.b.as_canonical_u32());
        let is_init = memory.read_cell(FRI_AS, instruction.g.as_canonical_u32());
        let hint_id = memory.unsafe_read_cell(FRI_AS, instruction.f.as_canonical_u32()).as_canonical_u32() as usize;
        let length = length_read.as_canonical_u32() as usize;
        let from_memory = is_init.v != 0;
        let ghost m1 = memory@;
        let ghost avals = fri_a_values(m0, hints0, *instruction);
        let mut data: Vec<BabyBear> = Vec::new();
        if !from_memory {
            data = take_hints(streams, hint_id, length);
        }
        let mut alpha_pow = [BabyBear::one(), BabyBear::zero(), BabyBear::zero(), BabyBear::zero()];
        let ghost alpha_v = fri_alpha(m0, *instruction);
        let ghost b_int = fri_b_values(m0, hints0, *instruction);
        let ghost a_int = Seq::new(length as nat, |j: int| avals[j].val());
        let mut a_values: Vec<BabyBear> = Vec::new();
        let mut b_values: Vec<[BabyBear; 4]> = Vec::new();
        let mut result = [BabyBear::zero(), BabyBear::zero(), BabyBear::zero(), BabyBear::zero()];
        proof {
            assert(ext_vals(alpha) =~= alpha_v);
            assert(ext_vals(alpha_pow) =~= ext_one());
            assert(ext_vals(result) =~= zero4());
            if !from_memory {
                assert(data@ =~= avals);
            }
        }
        let mut i: usize = 0;
        while i < length
            invariant
                i <= length,
                length == fri_length(m0, *instruction),
                from_memory == fri_is_init(m0, *instruction),
                4 * length < BABY_BEAR_P,
                avals == fri_a_values(m0, hints0, *instruction),
                b_int == fri_b_values(m0, hints0, *instruction),
                a_int == Seq::new(length as nat, |j: int| avals[j].val()),
                avals.len() == length,
                !from_memory ==> data@ == avals,
                memory@.timestamp == m0.timestamp + 5 + 2 * i,
                m0.timestamp + 6 + 2 * length < 0xffff_ffff,
                forall|asp: u32, q: int|
                    0 <= q < 0x1_0000_0000 ==> #[trigger] cell(memory@, asp, q) == fri_cell_after(
                        m0,
                        a_ptr,
                        avals,
                        !from_memory,
                        i as int,
                        asp,
                        q,
                    ),
                ext_vals(alpha) == alpha_v,
                a_ptr == cell(m0, FRI_AS, instruction.a.v as int),
                b_ptr == cell(m0, FRI_AS, instruction.b.v as int),
                (ext_vals(result), ext_vals(alpha_pow)) == fri_sum(a_int, b_int, alpha_v, ext_one(), i as nat),
                a_values@ == avals.take(i as int),
                b_values@.len() == i,
                forall|j: int| 0 <= j < i ==> ext_vals(#[trigger] b_values@[j]) == b_int[j],
            decreases length - i,
        {
            let pa = a_ptr.add(BabyBear::from_canonical_usize(i));
            let ghost before = memory@;
            let a = if from_memory {
                memory.read_cell(FRI_AS, pa.as_canonical_u32())
            } else {
                let x = data[i];
                let cellv = [x];
                memory.write(FRI_AS, pa.as_canonical_u32(), cellv.as_slice());
                x
            };
            proof {
                lemma_fri_a_step(m0, before, memory@, a_ptr, avals, !from_memory, i as int, a);
            }
            let pb = b_ptr.add(BabyBear::from_canonical_usize(4 * i)).as_canonical_u32();
            let ghost after_a = memory@;
            let b_read = memory.read(FRI_AS, pb, 4);
            let b = to_array(&b_read);
            proof {
                assert forall|asp: u32, q: int| 0 <= q < 0x1_0000_0000 implies #[trigger] cell(memory@, asp, q)
                    == fri_cell_after(m0, a_ptr, avals, !from_memory, i + 1, asp, q) by {
                    assert(cell(memory@, asp, q) == cell(after_a, asp, q));
                }
                assert(ext_vals(b) =~= b_int[i as int]);
                assert(a.val() == a_int[i as int]);
            }
            a_values.push(a);
            b_values.push(b);
            let diff = FieldExtension::subtract(b, elem_to_ext(a));
            let term = FieldExtension::multiply(diff, alpha_pow);
            result = FieldExtension::add(result, term);
            alpha_pow = FieldExtension::multiply(alpha, alpha_pow);
            proof {
                assert(avals.take(i + 1) =~= avals.take(i as int).push(a));
            }
            i = i + 1;
        }
        let ghost mid = memory@;
        memory.write(FRI_AS, instruction.e.as_canonical_u32(), result.as_slice());
        proof {
            assert(a_values@ =~= avals);
            let res = fri_sum(a_int, b_int, alpha_v, ext_one(), length as nat).0;
            assert forall|asp: u32, q: int| 0 <= q < 0x1_0000_0000 implies #[trigger] cell(memory@, asp, q)
                == if asp == FRI_AS && instruction.e.v <= q < instruction.e.v + 4 {
                BabyBear { v: res[q - instruction.e.v] as u32 }
            } else {
                fri_cell_after(m0, a_ptr, avals, !from_memory, length as int, asp, q)
            } by {
                assert(cell(mid, asp, q) == fri_cell_after(m0, a_ptr, avals, !from_memory, length as int, asp, q));
                if asp == FRI_AS && instruction.e.v <= q < instruction.e.v + 4 {
                    assert(result@[q - instruction.e.v].canonical());
                }
            }
        }
        self.records.push(
            FriReducedOpeningRecord {
                pc: BabyBear::from_wrapped_u32(from_state.pc),
                start_timestamp: BabyBear::from_wrapped_u32(from_state.timestamp),
                instruction: *instruction,
                alpha,
                length,
                a_ptr,
                b_ptr,
                a_values,
                b_values,
                alpha_pow_original: [BabyBear::one(), BabyBear::zero(), BabyBear::zero(), BabyBear::zero()],
                is_init,
            },
        );
        self.height = self.height + length;
        proof {
            let rec = self.records@.last();
            assert(self.records@.drop_last() =~= old(self).records@);
            assert(fri_record_wf(rec));
            assert(record_values(rec).1 =~= b_int);
            assert(ext_vals(rec.alpha_pow_original) =~= ext_one());
        }
        ExecutionState { pc: from_state.pc + DEFAULT_PC_STEP, timestamp: memory.timestamp() }
    }
}

/// One trace row of the chip, without the memory-checking auxiliary columns.
#[derive(Clone, Copy, Debug)]
pub struct FriReducedOpeningCols {
    pub enabled: BabyBear,
    pub pc: BabyBear,
    pub start_timestamp: BabyBear,
    pub a_ptr_ptr: BabyBear,
    pub b_ptr_ptr: BabyBear,
    pub result_ptr: BabyBear,
    pub addr_space: BabyBear,
    pub length_ptr: BabyBear,
    pub alpha_ptr: BabyBear,
    pub is_init_ptr: BabyBear,
    pub hint_id_ptr: BabyBear,
    /// The initialisation flag read from `[is_init_ptr]`.
    pub is_init: BabyBear,
    pub a_ptr: BabyBear,
    pub b_ptr: BabyBear,
    pub a: BabyBear,
    pub b: [BabyBear; 4],
    pub alpha: [BabyBear; 4],
    pub alpha_pow_original: [BabyBear; 4],
    pub alpha_pow_current: [BabyBear; 4],
    pub idx: BabyBear,
    pub idx_is_zero: BabyBear,
    pub is_zero_aux: BabyBear,
    pub current: [BabyBear; 4],
}

/// `row` is the `i`-th row of `record`: it holds the `i`-th term's operands, the power of
/// `alpha` it is multiplied by, the running sum through term `i`, and the index with its
/// is-zero flag and the flag's witness.
#[verifier::opaque]
pub open spec fn fri_row_of(record: FriReducedOpeningRecord, i: int, row: FriReducedOpeningCols) -> bool {
    let (a, b) = record_values(record);
    let alpha = ext_vals(record.alpha);
    let ap0 = ext_vals(record.alpha_pow_original);
    &&& row.enabled.v == 1
    &&& row.pc == record.pc
    &&& row.start_timestamp == record.start_timestamp
    &&& row.a_ptr_ptr == record.instruction.a
    &&& row.b_ptr_ptr == record.instruction.b
    &&& row.result_ptr == record.instruction.e
    &&& row.addr_space.v == FRI_AS
    &&& row.length_ptr == record.instruction.c
    &&& row.alpha_ptr == record.instruction.d
    &&& row.is_init_ptr == record.instruction.g
    &&& row.hint_id_ptr == record.instruction.f
    &&& row.is_init == record.is_init
    &&& row.a_ptr == record.a_ptr
    &&& row.b_ptr == record.b_ptr
    &&& row.a == record.a_values@[i]
    &&& row.b == record.b_values@[i]
    &&& row.alpha == record.alpha
    &&& row.alpha_pow_original == record.alpha_pow_original
    &&& ext_vals(row.alpha_pow_current) == fri_sum(a, b, alpha, ap0, i as nat).1
    &&& ext_vals(row.current) == fri_sum(a, b, alpha, ap0, (i + 1) as nat).0
    &&& row.idx.v == i
    &&& row.idx_is_zero.v == (if i == 0 { 1u32 } else { 0u32 })
    &&& (i == 0 ==> row.is_zero_aux.v == 0)
    &&& (i != 0 ==> modp(i * row.is_zero_aux.val()) == 1)
}

impl FriReducedOpeningChip {
    /// The rows of one record: row `i` holds the `i`-th term's operands, the power of `alpha`
    /// it is multiplied by, and the running sum through term `i`.
    pub fn record_to_rows(record: &FriReducedOpeningRecord) -> (rows: Vec<FriReducedOpeningCols>)
        requires
            record.a_values@.len() == record.length,
            record.b_values@.len() == record.length,
            record.length < BABY_BEAR_P,
        ensures
            rows@.len() == record.length,
            forall|i: int| 0 <= i < record.length ==> fri_row_of(*record, i, #[trigger] rows@[i]),
    {
        reveal(fri_row_of);
        let ghost (av, bv) = record_values(*record);
        let ghost alpha_v = ext_vals(record.alpha);
        let ghost ap0 = ext_vals(record.alpha_pow_original);
        let mut rows: Vec<FriReducedOpeningCols> = Vec::new();
        let mut alpha_pow_current = record.alpha_pow_original;
        let mut current = [BabyBear::zero(), BabyBear::zero(), BabyBear::zero(), BabyBear::zero()];
        let mut i: usize = 0;
        assert(ext_vals(current) =~= zero4());
        while i < record.length
            invariant
                i <= record.length,
                record.a_values@.len() == record.length,
                record.b_values@.len() == record.length,
                record.length < BABY_BEAR_P,
                (av, bv) == record_values(*record),
                alpha_v == ext_vals(record.alpha),
                ap0 == ext_vals(record.alpha_pow_original),
                (ext_vals(current), ext_vals(alpha_pow_current)) == fri_sum(av, bv, alpha_v, ap0, i as nat),
                rows@.len() == i,
                forall|j: int|
                    0 <= j < i ==> {
                        let row = #[trigger] rows@[j];
                        &&& row.enabled.v == 1
                        &&& row.pc == record.pc
                        &&& row.start_timestamp == record.start_timestamp
                        &&& row.a_ptr_ptr == record.instruction.a
                        &&& row.b_ptr_ptr == record.instruction.b
                        &&& row.result_ptr == record.instruction.e
                        &&& row.addr_space.v == FRI_AS
                        &&& row.length_ptr == record.instruction.c
                        &&& row.alpha_ptr == record.instruction.d
                        &&& row.is_init_ptr == record.instruction.g
                        &&& row.hint_id_ptr == record.instruction.f
                        &&& row.is_init == record.is_init
                        &&& row.a_ptr == record.a_ptr
                        &&& row.b_ptr == record.b_ptr
                        &&& row.a == record.a_values@[j]
                        &&& row.b == record.b_values@[j]
                        &&& row.alpha == record.alpha
                        &&& row.alpha_pow_original == record.alpha_pow_original
                        &&& ext_vals(row.alpha_pow_current) == fri_sum(av, bv, alpha_v, ap0, j as nat).1
                        &&& ext_vals(row.current) == fri_sum(av, bv, alpha_v, ap0, (j + 1) as nat).0
                        &&& row.idx.v == j
                        &&& row.idx_is_zero.v == (if j == 0 { 1u32 } else { 0u32 })
                        &&& (j == 0 ==> row.is_zero_aux.v == 0)
                        &&& (j != 0 ==> modp(j * row.is_zero_aux.val()) == 1)
                    },
            decreases record.length - i,
        {
            let a = record.a_values[i];
            let b = record.b_values[i];
            let ea = elem_to_ext(a);
            proof {
                assert(ext_vals(ea) =~= seq![av[i as int], 0, 0, 0]);
            }
            let diff = FieldExtension::subtract(b, ea);
            let term = FieldExtension::multiply(diff, alpha_pow_current);
            current = FieldExtension::add(current, term);
            let idx = BabyBear::from_canonical_usize(i);
            let (idx_is_zero, is_zero_aux) = if i == 0 {
                (BabyBear::one(), BabyBear::zero())
            } else {
                proof {
                    crate::field::lemma_modp_small(i as int);
                }
                (BabyBear::zero(), idx.inverse())
            };
            rows.push(
                FriReducedOpeningCols {
                    enabled: BabyBear::one(),
                    pc: record.pc,
                    start_timestamp: record.start_timestamp,
                    a_ptr_ptr: record.instruction.a,
                    b_ptr_ptr: record.instruction.b,
                    result_ptr: record.instruction.e,
                    addr_space: BabyBear { v: FRI_AS },
                    length_ptr: record.instruction.c,
                    alpha_ptr: record.instruction.d,
                    is_init_ptr: record.instruction.g,
                    hint_id_ptr: record.instruction.f,
                    is_init: record.is_init,
                    a_ptr: record.a_ptr,
                    b_ptr: record.b_ptr,
                    a,
                    b,
                    alpha: record.alpha,
                    alpha_pow_original: record.alpha_pow_original,
                    alpha_pow_current,
                    idx,
                    idx_is_zero,
                    is_zero_aux,
                    current,
                },
            );
            alpha_pow_current = FieldExtension::multiply(record.alpha, alpha_pow_current);
            i = i + 1;
        }
        rows
    }
}

// ---------------------------------------------------------------------------------------------
// The AIR: the polynomial constraints on a pair of adjacent rows.
// ---------------------------------------------------------------------------------------------
/// The constraints of one coordinate on the first row of an instruction (`idx_is_zero` set):
/// the running power starts at the starting power, and the running sum is the first term
/// `alpha_pow * b - alpha_pow * a`.
pub open spec fn fri_first_coord_ok(c: FriReducedOpeningCols, i: int) -> bool {
    let ap = ext_vals(c.alpha_pow_current);
    let izz = c.idx_is_zero.val();
    &&& modp(izz * (ap[i] - ext_vals(c.alpha_pow_original)[i])) == 0
    &&& modp(
        izz * (ext_vals(c.current)[i] - (ext_mul_int(ap, ext_vals(c.b))[i] - ap[i] * c.a.val())),
    ) == 0
}

/// The constraints that concern one row alone: `enabled` is boolean, the first-row
/// constraints, and the is-zero constraints `idx * idx_is_zero = 0` and
/// `idx_is_zero + idx * is_zero_aux = 1`.
#[verifier::opaque]
pub open spec fn fri_local_ok(c: FriReducedOpeningCols) -> bool {
    &&& modp(c.enabled.val() * (c.enabled.val() - 1)) == 0
    &&& forall|i: int| 0 <= i < 4 ==> #[trigger] fri_first_coord_ok(c, i)
    &&& modp(c.idx.val() * c.idx_is_zero.val()) == 0
    &&& modp(c.idx_is_zero.val() + c.idx.val() * c.is_zero_aux.val() - 1) == 0
}

/// The transition constraints of one coordinate, enforced unless `next` starts an instruction:
/// the next running sum adds the next term, `alpha` and the starting power are carried, and
/// the running power is multiplied by `alpha`.
pub open spec fn fri_transition_coord_ok(
    local: FriReducedOpeningCols,
    next: FriReducedOpeningCols,
    i: int,
) -> bool {
    let g = 1 - next.idx_is_zero.val();
    let nap = ext_vals(next.alpha_pow_current);
    &&& modp(
        g * (ext_vals(next.current)[i] - (ext_mul_int(nap, ext_vals(next.b))[i] - nap[i]
            * next.a.val() + ext_vals(local.current)[i])),
    ) == 0
    &&& modp(g * (next.alpha[i].val() - local.alpha[i].val())) == 0
    &&& modp(g * (next.alpha_pow_original[i].val() - local.alpha_pow_original[i].val())) == 0
    &&& modp(
        g * (nap[i] - ext_mul_int(ext_vals(local.alpha), ext_vals(local.alpha_pow_current))[i]),
    ) == 0
}

/// The transition constraints, enforced unless `next` starts an instruction: the coordinate
/// constraints, the index steps by one, and `enabled` and the start timestamp are carried.
#[verifier::opaque]
pub open spec fn fri_transition_ok(local: FriReducedOpeningCols, next: FriReducedOpeningCols) -> bool {
    let g = 1 - next.idx_is_zero.val();
    &&& forall|i: int| 0 <= i < 4 ==> #[trigger] fri_transition_coord_ok(local, next, i)
    &&& modp(g * (next.idx.val() - (local.idx.val() + 1))) == 0
    &&& modp(g * (next.enabled.val() - local.enabled.val())) == 0
    &&& modp(g * (next.start_timestamp.val() - local.start_timestamp.val())) == 0
}

/// All polynomial constraints of the AIR on the row `local` followed by `next`.
pub open spec fn fri_rows_ok(local: FriReducedOpeningCols, next: FriReducedOpeningCols) -> bool {
    fri_local_ok(local) && fri_transition_ok(local, next)
}

/// One step of the running sum agrees with the constraint's form:
/// `cur + (b - a) * ap = ap * b - ap * a + cur` in the field.
proof fn lemma_fri_step(cur: Seq<int>, b: Seq<int>, a: int, ea: Seq<int>, ap: Seq<int>)
    requires
        cur.len() == 4,
        b.len() == 4,
        ap.len() == 4,
        ea == seq![a, 0, 0, 0],
    ensures
        forall|i: int|
            0 <= i < 4 ==> modp(#[trigger] eadd(cur, emul(esub(b, ea), ap))[i])
                == modp(ext_mul_int(ap, b)[i] - ap[i] * a + cur[i]),
{
    let d = ext_sub_int(b, ea);
    let rd = reduce4(d);
    assert forall|i: int| 0 <= i < 4 implies modp(#[trigger] rd[i]) == modp(d[i]) by {
        crate::field::lemma_modp_basics(d[i]);
    }
    assert(eqm4(rd, d));
    lemma_ext_mul_congruent(ap, rd, d);
    // the product commutes, and (b - a) * ap = ap * b - a * ap exactly
    let m1 = ext_mul_int(rd, ap);
    let m2 = ext_mul_int(ap, rd);
    assert(m1 =~= m2) by {
        let (x0, x1, x2, x3) = (rd[0], rd[1], rd[2], rd[3]);
        let (y0, y1, y2, y3) = (ap[0], ap[1], ap[2], ap[3]);
        assert(x0 * y0 == y0 * x0 && x0 * y1 == y1 * x0 && x0 * y2 == y2 * x0 && x0 * y3 == y3
            * x0) by (nonlinear_arith);
        assert(x1 * y0 == y0 * x1 && x1 * y1 == y1 * x1 && x1 * y2 == y2 * x1 && x1 * y3 == y3
            * x1) by (nonlinear_arith);
        assert(x2 * y0 == y0 * x2 && x2 * y1 == y1 * x2 && x2 * y2 == y2 * x2 && x2 * y3 == y3
            * x2) by (nonlinear_arith);
        assert(x3 * y0 == y0 * x3 && x3 * y1 == y1 * x3 && x3 * y2 == y2 * x3 && x3 * y3 == y3
            * x3) by (nonlinear_arith);
    }
    let md = ext_mul_int(ap, d);
    let mb = ext_mul_int(ap, b);
    assert forall|i: int| 0 <= i < 4 implies #[trigger] md[i] == mb[i] - ap[i] * a by {
        assert(d[0] == b[0] - a && d[1] == b[1] && d[2] == b[2] && d[3] == b[3]);
        assert(md[0] == mb[0] - ap[0] * a) by (nonlinear_arith)
            requires
                md[0] == ap[0] * d[0] + (ap[1] * d[3] + ap[2] * d[2] + ap[3] * d[1]) * 11,
                mb[0] == ap[0] * b[0] + (ap[1] * b[3] + ap[2] * b[2] + ap[3] * b[1]) * 11,
                d[0] == b[0] - a && d[1] == b[1] && d[2] == b[2] && d[3] == b[3],
        ;
        assert(md[1] == mb[1] - ap[1] * a) by (nonlinear_arith)
            requires
                md[1] == ap[0] * d[1] + ap[1] * d[0] + (ap[2] * d[3] + ap[3] * d[2]) * 11,
                mb[1] == ap[0] * b[1] + ap[1] * b[0] + (ap[2] * b[3] + ap[3] * b[2]) * 11,
                d[0] == b[0] - a && d[1] == b[1] && d[2] == b[2] && d[3] == b[3],
        ;
        assert(md[2] == mb[2] - ap[2] * a) by (nonlinear_arith)
            requires
                md[2] == ap[0] * d[2] + ap[1] * d[1] + ap[2] * d[0] + (ap[3] * d[3]) * 11,
                mb[2] == ap[0] * b[2] + ap[1] * b[1] + ap[2] * b[0] + (ap[3] * b[3]) * 11,
                d[0] == b[0] - a && d[1] == b[1] && d[2] == b[2] && d[3] == b[3],
        ;
        assert(md[3] == mb[3] - ap[3] * a) by (nonlinear_arith)
            requires
                md[3] == ap[0] * d[3] + ap[1] * d[2] + ap[2] * d[1] + ap[3] * d[0],
                mb[3] == ap[0] * b[3] + ap[1] * b[2] + ap[2] * b[1] + ap[3] * b[0],
                d[0] == b[0] - a && d[1] == b[1] && d[2] == b[2] && d[3] == b[3],
        ;
    }
    let t = emul(rd, ap);
    assert forall|i: int| 0 <= i < 4 implies modp(
        #[trigger] eadd(cur, emul(esub(b, ea), ap))[i],
    ) == modp(ext_mul_int(ap, b)[i] - ap[i] * a + cur[i]) by {
        crate::field::lemma_modp_basics(m1[i]);
        crate::field::lemma_modp_basics(cur[i] + t[i]);
        // t[i] = m1[i] mod p = m2[i] = md[i] mod p
        crate::field::lemma_eqm_add(cur[i], cur[i], t[i], md[i]);
        assert(cur[i] + md[i] == mb[i] - ap[i] * a + cur[i]);
    }
}

/// A record is consistent: one base and one extension value per term, and fewer terms than `p`.
pub open spec fn fri_record_wf(r: FriReducedOpeningRecord) -> bool {
    &&& r.a_values@.len() == r.length
    &&& r.b_values@.len() == r.length
    &&& r.length < BABY_BEAR_P
}

/// A padding row: all zero but `idx_is_zero`, which is one.
pub open spec fn fri_is_padding(c: FriReducedOpeningCols) -> bool {
    &&& c.enabled.v == 0 && c.pc.v == 0 && c.start_timestamp.v == 0
    &&& c.a_ptr_ptr.v == 0 && c.b_ptr_ptr.v == 0 && c.result_ptr.v == 0 && c.addr_space.v == 0
    &&& c.length_ptr.v == 0 && c.alpha_ptr.v == 0 && c.is_init_ptr.v == 0
    &&& c.hint_id_ptr.v == 0 && c.is_init.v == 0
    &&& c.a_ptr.v == 0 && c.b_ptr.v == 0 && c.a.v == 0
    &&& forall|i: int|
        0 <= i < 4 ==> #[trigger] c.b[i].v == 0 && c.alpha[i].v == 0 && c.alpha_pow_original[i].v
            == 0 && c.alpha_pow_current[i].v == 0 && c.current[i].v == 0
    &&& c.idx.v == 0 && c.idx_is_zero.v == 1 && c.is_zero_aux.v == 0
}

/// A zero factor gives a zero product.
proof fn lemma_zero_factor(g: int, x: int)
    requires
        g == 0,
    ensures
        g * x == 0,
        x * g == 0,
        modp(g * x) == 0,
{
    assert(g * x == 0 && x * g == 0) by (nonlinear_arith)
        requires
            g == 0,
    ;
    crate::field::lemma_modp_small(0);
}

/// Where the next row starts an instruction, the transition constraints vanish.
proof fn lemma_fri_transition_at_start(local: FriReducedOpeningCols, next: FriReducedOpeningCols)
    requires
        next.idx_is_zero.v == 1,
    ensures
        fri_transition_ok(local, next),
{
    reveal(fri_transition_ok);
    let g = 1 - next.idx_is_zero.val();
    let nap = ext_vals(next.alpha_pow_current);
    assert forall|i: int| 0 <= i < 4 implies #[trigger] fri_transition_coord_ok(local, next, i) by {
        lemma_zero_factor(
            g,
            ext_vals(next.current)[i] - (ext_mul_int(nap, ext_vals(next.b))[i] - nap[i]
                * next.a.val() + ext_vals(local.current)[i]),
        );
        lemma_zero_factor(g, next.alpha[i].val() - local.alpha[i].val());
        lemma_zero_factor(g, next.alpha_pow_original[i].val() - local.alpha_pow_original[i].val());
        lemma_zero_factor(
            g,
            nap[i] - ext_mul_int(ext_vals(local.alpha), ext_vals(local.alpha_pow_current))[i],
        );
    }
    lemma_zero_factor(g, next.idx.val() - (local.idx.val() + 1));
    lemma_zero_factor(g, next.enabled.val() - local.enabled.val());
    lemma_zero_factor(g, next.start_timestamp.val() - local.start_timestamp.val());
}

/// A padding row satisfies the constraints on one row.
proof fn lemma_fri_padding_local(c: FriReducedOpeningCols)
    requires
        fri_is_padding(c),
    ensures
        fri_local_ok(c),
{
    reveal(fri_local_ok);
    crate::field::lemma_modp_small(0);
    assert forall|i: int| 0 <= i < 4 implies #[trigger] fri_first_coord_ok(c, i) by {
        let ap = ext_vals(c.alpha_pow_current);
        let b = ext_vals(c.b);
        assert(ap[0] == 0 && ap[1] == 0 && ap[2] == 0 && ap[3] == 0);
        assert(c.b[0].v == 0 && c.b[1].v == 0 && c.b[2].v == 0 && c.b[3].v == 0);
        assert(ext_mul_int(ap, b)[i] == 0);
        assert(ext_vals(c.current)[i] == 0);
        assert(ext_vals(c.alpha_pow_original)[i] == 0);
    }
}

/// Every row of a consistent record satisfies the constraints on one row.
proof fn lemma_fri_record_row_local(record: FriReducedOpeningRecord, i: int, row: FriReducedOpeningCols)
    requires
        fri_record_wf(record),
        0 <= i < record.length,
        fri_row_of(record, i, row),
    ensures
        fri_local_ok(row),
{
    reveal(fri_row_of);
    reveal(fri_local_ok);
    let (av, bv) = record_values(record);
    let alpha = ext_vals(record.alpha);
    let ap0 = ext_vals(record.alpha_pow_original);
    crate::field::lemma_modp_small(0);
    crate::field::lemma_modp_small(1);
    assert(row.enabled.val() * (row.enabled.val() - 1) == 0);
    if i == 0 {
        let ea = seq![av[0], 0, 0, 0];
        let ap = ext_vals(row.alpha_pow_current);
        assert(ap == ap0);
        assert(ext_vals(row.b) == bv[0]);
        assert(row.a.val() == av[0]);
        let (r1, p1) = fri_sum(av, bv, alpha, ap0, 1);
        assert(fri_sum(av, bv, alpha, ap0, 0) == (zero4(), ap0));
        assert(r1 == eadd(zero4(), emul(esub(bv[0], ea), ap0)));
        lemma_fri_step(zero4(), bv[0], av[0], ea, ap0);
        assert forall|k: int| 0 <= k < 4 implies #[trigger] fri_first_coord_ok(row, k) by {
            let cur = ext_vals(row.current);
            let m = ext_mul_int(ap, ext_vals(row.b))[k] - ap[k] * row.a.val();
            assert(cur[k] == r1[k]);
            assert(modp(r1[k]) == modp(m + zero4()[k]));
            assert(m + zero4()[k] == m);
            crate::field::lemma_modp_basics(r1[k]);
            crate::field::lemma_eqm_sub(cur[k], m, m, m);
            assert(1 * (cur[k] - m) == cur[k] - m);
            assert(1 * (ap[k] - ap0[k]) == 0);
        }
        lemma_zero_factor(row.idx.val(), row.idx_is_zero.val());
        lemma_zero_factor(row.idx.val(), row.is_zero_aux.val());
    } else {
        assert forall|k: int| 0 <= k < 4 implies #[trigger] fri_first_coord_ok(row, k) by {
        }
        assert(row.idx.val() * row.idx_is_zero.val() == 0);
        let t = row.idx.val() * row.is_zero_aux.val();
        crate::field::lemma_eqm_sub(t, 1, 1, 1);
        assert(row.idx_is_zero.val() + t - 1 == t - 1);
    }
}

/// Two successive rows of a consistent record satisfy the transition constraints.
proof fn lemma_fri_record_rows_transition(
    record: FriReducedOpeningRecord,
    j: int,
    local: FriReducedOpeningCols,
    next: FriReducedOpeningCols,
)
    requires
        fri_record_wf(record),
        0 <= j,
        j + 1 < record.length,
        fri_row_of(record, j, local),
        fri_row_of(record, j + 1, next),
    ensures
        fri_transition_ok(local, next),
{
    reveal(fri_row_of);
    reveal(fri_transition_ok);
    let (av, bv) = record_values(record);
    let alpha = ext_vals(record.alpha);
    let ap0 = ext_vals(record.alpha_pow_original);
    crate::field::lemma_modp_small(0);
    let ea = seq![av[j + 1], 0, 0, 0];
    let (rj, pj) = fri_sum(av, bv, alpha, ap0, j as nat);
    let (r1, p1) = fri_sum(av, bv, alpha, ap0, (j + 1) as nat);
    let (r2, p2) = fri_sum(av, bv, alpha, ap0, (j + 2) as nat);
    assert(r2 == eadd(r1, emul(esub(bv[j + 1], ea), p1)));
    assert(p1 == emul(alpha, pj));
    lemma_fri_step(r1, bv[j + 1], av[j + 1], ea, p1);
    let nap = ext_vals(next.alpha_pow_current);
    assert(nap == p1);
    assert(ext_vals(next.b) == bv[j + 1]);
    assert(next.a.val() == av[j + 1]);
    assert(ext_vals(local.current) == r1);
    assert(ext_vals(local.alpha_pow_current) == pj);
    assert(ext_vals(local.alpha) == alpha);
    assert forall|k: int| 0 <= k < 4 implies #[trigger] fri_transition_coord_ok(local, next, k) by {
        let cur = ext_vals(next.current);
        let m = ext_mul_int(nap, ext_vals(next.b))[k] - nap[k] * next.a.val() + r1[k];
        assert(cur[k] == r2[k]);
        crate::field::lemma_modp_basics(r2[k]);
        crate::field::lemma_eqm_sub(cur[k], m, m, m);
        assert(1 * (cur[k] - (ext_mul_int(nap, ext_vals(next.b))[k] - nap[k] * next.a.val()
            + ext_vals(local.current)[k])) == cur[k] - m);
        let q = ext_mul_int(alpha, pj)[k];
        crate::field::lemma_modp_basics(q);
        assert(nap[k] == modp(q));
        crate::field::lemma_eqm_sub(nap[k], q, q, q);
        assert(1 * (nap[k] - q) == nap[k] - q);
        assert(1 * (next.alpha[k].val() - local.alpha[k].val()) == 0);
        assert(1 * (next.alpha_pow_original[k].val() - local.alpha_pow_original[k].val()) == 0);
    }
    assert(1 * (next.idx.val() - (local.idx.val() + 1)) == 0);
    assert(1 * (next.enabled.val() - local.enabled.val()) == 0);
    assert(1 * (next.start_timestamp.val() - local.start_timestamp.val()) == 0);
}

/// The number of trace rows of a list of records.
pub open spec fn total_rows(s: Seq<FriReducedOpeningRecord>) -> nat
    decreases s.len(),
{
    if s.len() == 0 {
        0
    } else {
        total_rows(s.drop_last()) + s.last().length as nat
    }
}

/// `x` is a power of two.
pub open spec fn is_pow2(x: nat) -> bool {
    exists|k: nat| #[trigger] vstd::arithmetic::power2::pow2(k) == x
}

/// The smallest power of two not below `n`, or zero for zero.
pub fn next_power_of_two_or_zero(n: usize) -> (r: usize)
    requires
        n <= usize::MAX / 2,
    ensures
        n == 0 ==> r == 0,
        n > 0 ==> is_pow2(r as nat) && n <= r < 2 * n,
{
    if n == 0 {
        return 0;
    }
    let mut r: usize = 1;
    proof {
        vstd::arithmetic::power2::lemma2_to64();
        assert(vstd::arithmetic::power2::pow2(0) == 1);
    }
    while r < n
        invariant
            0 < n <= usize::MAX / 2,
            1 <= r < 2 * n,
            is_pow2(r as nat),
        decreases 2 * n - r,
    {
        let ghost k = choose|k: nat| vstd::arithmetic::power2::pow2(k) == r;
        proof {
            vstd::arithmetic::power2::lemma_pow2_unfold(k + 1);
            assert(vstd::arithmetic::power2::pow2(k + 1) == 2 * r);
        }
        r = r * 2;
    }
    r
}

impl FriReducedOpeningChip {
    /// The records are consistent and the height counts their rows.
    pub open spec fn wf(&self) -> bool {
        &&& forall|k: int|
            0 <= k < self.records@.len() ==> fri_record_wf(#[trigger] self.records@[k])
        &&& self.height == total_rows(self.records@)
    }
}

/// A padding row.
fn padding_row() -> (c: FriReducedOpeningCols)
    ensures
        fri_is_padding(c),
{
    let z = BabyBear::zero();
    let zz = [z, z, z, z];
    FriReducedOpeningCols {
        enabled: z,
        pc: z,
        start_timestamp: z,
        a_ptr_ptr: z,
        b_ptr_ptr: z,
        result_ptr: z,
        addr_space: z,
        length_ptr: z,
        alpha_ptr: z,
        is_init_ptr: z,
        hint_id_ptr: z,
        is_init: z,
        a_ptr: z,
        b_ptr: z,
        a: z,
        b: zz,
        alpha: zz,
        alpha_pow_original: zz,
        alpha_pow_current: zz,
        idx: z,
        idx_is_zero: BabyBear::one(),
        is_zero_aux: z,
        current: zz,
    }
}

/// The row where the `i`-th row of record `q` stands in a trace of `records`.
pub open spec fn row_at(
    trace: Seq<FriReducedOpeningCols>,
    records: Seq<FriReducedOpeningRecord>,
    q: int,
    i: int,
) -> FriReducedOpeningCols {
    trace[total_rows(records.take(q)) + i]
}

/// The rows of the first `q + 1` records are those of the first `q` and of record `q`.
proof fn lemma_total_rows_step(s: Seq<FriReducedOpeningRecord>, q: int)
    requires
        0 <= q < s.len(),
    ensures
        total_rows(s.take(q + 1)) == total_rows(s.take(q)) + s[q].length,
{
    assert(s.take(q + 1).drop_last() =~= s.take(q));
}

/// Row counts of prefixes grow with the prefix.
proof fn lemma_total_rows_mono(s: Seq<FriReducedOpeningRecord>, q: int, r: int)
    requires
        0 <= q <= r <= s.len(),
    ensures
        total_rows(s.take(q)) <= total_rows(s.take(r)),
    decreases r - q,
{
    if q < r {
        lemma_total_rows_step(s, r - 1);
        lemma_total_rows_mono(s, q, r - 1);
    }
}

/// Appends the rows of a record to a trace whose rows satisfy the constraints on one row and
/// whose adjacent rows satisfy the transition constraints; both stay true.
fn append_record_rows(trace: &mut Vec<FriReducedOpeningCols>, record: &FriReducedOpeningRecord)
    requires
        fri_record_wf(*record),
        forall|k: int| 0 <= k < old(trace)@.len() ==> fri_local_ok(#[trigger] old(trace)@[k]),
        forall|k: int|
            0 <= k && k + 1 < old(trace)@.len() ==> fri_transition_ok(
                #[trigger] old(trace)@[k],
                old(trace)@[k + 1],
            ),
        old(trace)@.len() > 0 ==> old(trace)@[0].idx_is_zero.v == 1,
    ensures
        final(trace)@.len() == old(trace)@.len() + record.length,
        forall|k: int| 0 <= k < old(trace)@.len() ==> final(trace)@[k] == old(trace)@[k],
        forall|j: int|
            0 <= j < record.length ==> fri_row_of(
                *record,
                j,
                #[trigger] final(trace)@[old(trace)@.len() + j],
            ),
        forall|k: int| 0 <= k < final(trace)@.len() ==> fri_local_ok(#[trigger] final(trace)@[k]),
        forall|k: int|
            0 <= k && k + 1 < final(trace)@.len() ==> fri_transition_ok(
                #[trigger] final(trace)@[k],
                final(trace)@[k + 1],
            ),
        final(trace)@.len() > 0 ==> final(trace)@[0].idx_is_zero.v == 1,
{
    let rows = FriReducedOpeningChip::record_to_rows(record);
    let ghost base = trace@.len();
    let ghost before = trace@;
    let mut i: usize = 0;
    while i < rows.len()
        invariant
            fri_record_wf(*record),
            rows@.len() == record.length,
            forall|j: int| 0 <= j < record.length ==> fri_row_of(*record, j, #[trigger] rows@[j]),
            i <= rows@.len(),
            base == before.len(),
            trace@.len() == base + i,
            forall|k: int| 0 <= k < base ==> trace@[k] == before[k],
            forall|j: int| 0 <= j < i ==> #[trigger] trace@[base + j] == rows@[j],
            forall|k: int| 0 <= k < trace@.len() ==> fri_local_ok(#[trigger] trace@[k]),
            forall|k: int|
                0 <= k && k + 1 < trace@.len() ==> fri_transition_ok(
                    #[trigger] trace@[k],
                    trace@[k + 1],
                ),
            trace@.len() > 0 ==> trace@[0].idx_is_zero.v == 1,
        decreases rows@.len() - i,
    {
        let row = rows[i];
        proof {
            lemma_fri_record_row_local(*record, i as int, row);
            if i == 0 {
                assert(row.idx_is_zero.v == 1) by {
                    reveal(fri_row_of);
                }
            }
            if trace@.len() > 0 {
                if i == 0 {
                    lemma_fri_transition_at_start(trace@.last(), row);
                } else {
                    let j = i - 1;
                    assert(trace@[base + j] == rows@[j]);
                    assert(trace@.last() == trace@[base + j]);
                    lemma_fri_record_rows_transition(*record, j, rows@[j], row);
                }
            }
        }
        trace.push(row);
        proof {
            assert(trace@[base + i] == rows@[i as int]);
        }
        i = i + 1;
    }
    proof {
        assert forall|j: int| 0 <= j < record.length implies fri_row_of(
            *record,
            j,
            #[trigger] trace@[base + j],
        ) by {
            assert(trace@[base + j] == rows@[j]);
        }
    }
}

impl FriReducedOpeningChip {
    /// The trace of the chip: the rows of every record in order, then padding rows up to the
    /// next power of two.  Every row followed by the next one (the last row by the first)
    /// satisfies the polynomial constraints of the AIR.
    #[verifier::rlimit(30)]
    pub fn generate_trace(&self) -> (trace: Vec<FriReducedOpeningCols>)
        requires
            self.wf(),
            self.height <= usize::MAX / 2,
        ensures
            self.height == 0 ==> trace@.len() == 0,
            self.height > 0 ==> is_pow2(trace@.len()) && self.height <= trace@.len() < 2
                * self.height,
            forall|q: int, i: int|
                0 <= q < self.records@.len() && 0 <= i < self.records@[q].length ==> fri_row_of(
                    self.records@[q],
                    i,
                    #[trigger] row_at(trace@, self.records@, q, i),
                ),
            forall|k: int| self.height <= k < trace@.len() ==> fri_is_padding(#[trigger] trace@[k]),
            forall|k: int|
                0 <= k < trace@.len() ==> fri_rows_ok(
                    #[trigger] trace@[k],
                    trace@[(k + 1) % (trace@.len() as int)],
                ),
    {
        let ghost recs = self.records@;
        let mut trace: Vec<FriReducedOpeningCols> = Vec::new();
        let mut r: usize = 0;
        while r < self.records.len()
            invariant
                self.wf(),
                recs == self.records@,
                r <= recs.len(),
                trace@.len() == total_rows(recs.take(r as int)),
                forall|k: int| 0 <= k < trace@.len() ==> fri_local_ok(#[trigger] trace@[k]),
                forall|k: int|
                    0 <= k && k + 1 < trace@.len() ==> fri_transition_ok(
                        #[trigger] trace@[k],
                        trace@[k + 1],
                    ),
                trace@.len() > 0 ==> trace@[0].idx_is_zero.v == 1,
                forall|q: int, i: int|
                    0 <= q < r && 0 <= i < recs[q].length ==> fri_row_of(
                        recs[q],
                        i,
                        #[trigger] row_at(trace@, recs, q, i),
                    ),
            decreases recs.len() - r,
        {
            let record = &self.records[r];
            assert(fri_record_wf(recs[r as int]));
            let ghost base = trace@.len();
            let ghost before = trace@;
            proof {
                lemma_total_rows_step(recs, r as int);
            }
            append_record_rows(&mut trace, record);
            proof {
                assert forall|q: int, j: int|
                    0 <= q < r + 1 && 0 <= j < recs[q].length implies fri_row_of(
                    recs[q],
                    j,
                    #[trigger] row_at(trace@, recs, q, j),
                ) by {
                    if q < r {
                        lemma_total_rows_step(recs, q);
                        lemma_total_rows_mono(recs, q + 1, r as int);
                        let idx = total_rows(recs.take(q)) + j;
                        assert(idx < base);
                        assert(trace@[idx] == before[idx]);
                        assert(row_at(before, recs, q, j) == before[idx]);
                    } else {
                        assert(trace@[base + j] == row_at(trace@, recs, q, j));
                    }
                }
            }
            r = r + 1;
        }
        proof {
            assert(recs.take(recs.len() as int) =~= recs);
        }
        let h = next_power_of_two_or_zero(self.height);
        let ghost filled = trace@;
        while trace.len() < h
            invariant
                self.wf(),
                recs == self.records@,
                filled.len() == self.height,
                h == 0 ==> self.height == 0,
                self.height <= h,
                self.height <= trace@.len() <= h,
                forall|k: int| 0 <= k < filled.len() ==> trace@[k] == filled[k],
                forall|k: int| self.height <= k < trace@.len() ==> fri_is_padding(#[trigger] trace@[k]),
                forall|k: int| 0 <= k < trace@.len() ==> fri_local_ok(#[trigger] trace@[k]),
                forall|k: int|
                    0 <= k && k + 1 < trace@.len() ==> fri_transition_ok(
                        #[trigger] trace@[k],
                        trace@[k + 1],
                    ),
                trace@.len() > 0 ==> trace@[0].idx_is_zero.v == 1,
            decreases h - trace@.len(),
        {
            let pad = padding_row();
            proof {
                lemma_fri_padding_local(pad);
                if trace@.len() > 0 {
                    lemma_fri_transition_at_start(trace@.last(), pad);
                }
            }
            trace.push(pad);
        }
        proof {
            let n = trace@.len() as int;
            if n > 0 {
                lemma_fri_transition_at_start(trace@[n - 1], trace@[0]);
            }
            assert forall|k: int| 0 <= k < n implies fri_rows_ok(
                #[trigger] trace@[k],
                trace@[(k + 1) % n],
            ) by {
                if k + 1 < n {
                    vstd::arithmetic::div_mod::lemma_small_mod((k + 1) as nat, n as nat);
                } else {
                    vstd::arithmetic::div_mod::lemma_mod_self_0(n);
                }
            }
            assert forall|q: int, i: int|
                0 <= q < recs.len() && 0 <= i < recs[q].length implies fri_row_of(
                recs[q],
                i,
                #[trigger] row_at(trace@, recs, q, i),
            ) by {
                lemma_total_rows_step(recs, q);
                lemma_total_rows_mono(recs, q + 1, recs.len() as int);
                let idx = total_rows(recs.take(q)) + i;
                assert(trace@[idx] == filled[idx]);
                assert(row_at(filled, recs, q, i) == filled[idx]);
            }
        }
        trace
    }
}

/// A coordinate of an extension element, by index.
proof fn lemma_ext_vals_index(x: [BabyBear; 4], i: int)
    requires
        0 <= i < 4,
    ensures
        ext_vals(x)[i] == x[i].val(),
{
    if i == 0 {
    } else if i == 1 {
    } else if i == 2 {
    } else {
    }
}

/// `g * (x - y)` vanishes in the field, for `g` and `y` given up to congruence by `ge` and `ye`.
fn vanishes(g: BabyBear, x: BabyBear, y: BabyBear, Ghost(ge): Ghost<int>, Ghost(ye): Ghost<int>) -> (r: bool)
    requires
        modp(g.val()) == modp(ge),
        modp(y.val()) == modp(ye),
    ensures
        r == (modp(ge * (x.val() - ye)) == 0),
{
    let d = x.sub(y);
    let pr = g.mul(d);
    proof {
        crate::field::lemma_modp_basics(x.val() - y.val());
        crate::field::lemma_eqm_sub(x.val(), x.val(), y.val(), ye);
        crate::field::lemma_eqm_mul(g.val(), ge, d.val(), x.val() - ye);
        crate::field::lemma_modp_small(pr.val());
    }
    pr.v == 0
}

/// `a - b + c` with the congruences of its operands.
fn sub_add(a: BabyBear, b: BabyBear, c: BabyBear, Ghost(ae): Ghost<int>, Ghost(be): Ghost<int>) -> (r: BabyBear)
    requires
        modp(a.val()) == modp(ae),
        modp(b.val()) == modp(be),
    ensures
        modp(r.val()) == modp(ae - be + c.val()),
{
    let d = a.sub(b);
    let r = d.add(c);
    proof {
        crate::field::lemma_modp_basics(a.val() - b.val());
        crate::field::lemma_eqm_sub(a.val(), ae, b.val(), be);
        crate::field::lemma_eqm_add(d.val(), ae - be, c.val(), c.val());
        crate::field::lemma_modp_basics(d.val() + c.val());
    }
    r
}

/// The AIR of the chip; `offset` is the opcode class offset.
pub struct FriReducedOpeningAir {
    pub offset: usize,
}

/// `x + k y + c` in the field.
fn lin(x: BabyBear, k: u32, y: BabyBear, c: u32) -> (r: BabyBear)
    requires
        k < BABY_BEAR_P,
        c < BABY_BEAR_P,
    ensures
        r.val() == modp(x.val() + k * y.val() + c),
{
    let t = BabyBear::from_canonical_u32(k).mul(y);
    let s = x.add(t);
    let r = s.add(BabyBear::from_canonical_u32(c));
    proof {
        lemma_modp_basics(k * y.val());
        lemma_modp_small(c as int);
        crate::field::lemma_eqm_add(x.val(), x.val(), t.val(), k * y.val());
        lemma_modp_basics(x.val() + k * y.val());
        crate::field::lemma_eqm_add(s.val(), x.val() + k * y.val(), c as int, c as int);
    }
    r
}

/// The messages of a row, given the next row: on the last row of an instruction
/// (`next.idx_is_zero`), the execution from `(pc, ts)` to `(pc + 4, ts + 8 + 2 idx)` and the
/// reads of `alpha`, the length, the two array pointers and the flag at `ts .. ts + 4`, and the
/// write of the sum at `ts + 7 + 2 idx`; on every enabled row, the access to `a` at
/// `a_ptr + idx` (a read when the flag is set, a write of the hinted value otherwise) at
/// `ts + 5 + 2 idx` and the read of `b` at `b_ptr + 4 idx` at `ts + 6 + 2 idx`.
pub open spec fn fri_interactions_ok(
    offset: usize,
    l: FriReducedOpeningCols,
    next: FriReducedOpeningCols,
    m: Seq<Interaction>,
) -> bool {
    let last = modp(l.enabled.val() * next.idx_is_zero.val());
    let ts = l.start_timestamp.val();
    let idx = l.idx.val();
    let asp = l.addr_space.val();
    &&& m.len() == 10
    &&& is_interaction(
        m[0],
        Bus::Execution,
        last,
        seq![modp(offset as int)] + vals(
            seq![
                l.a_ptr_ptr,
                l.b_ptr_ptr,
                l.length_ptr,
                l.alpha_ptr,
                l.result_ptr,
                l.hint_id_ptr,
                l.is_init_ptr,
            ],
        ) + seq![
            l.pc.val(),
            l.start_timestamp.val(),
            modp(l.pc.val() + 4),
            modp(ts + 2 * idx + 8),
        ],
    )
    &&& is_interaction(m[1], Bus::MemoryRead, last, seq![asp, l.alpha_ptr.val(), l.start_timestamp.val()] + vals(l.alpha@))
    &&& is_interaction(m[2], Bus::MemoryRead, last, seq![asp, l.length_ptr.val(), modp(ts + 1)] + vals(seq![BabyBear { v: modp(idx + 1) as u32 }]))
    &&& is_interaction(m[3], Bus::MemoryRead, last, seq![asp, l.a_ptr_ptr.val(), modp(ts + 2)] + vals(seq![l.a_ptr]))
    &&& is_interaction(m[4], Bus::MemoryRead, last, seq![asp, l.b_ptr_ptr.val(), modp(ts + 3)] + vals(seq![l.b_ptr]))
    &&& is_interaction(m[5], Bus::MemoryRead, last, seq![asp, l.is_init_ptr.val(), modp(ts + 4)] + vals(seq![l.is_init]))
    &&& is_interaction(m[6], Bus::MemoryRead, modp(l.enabled.val() * l.is_init.val()), seq![asp, modp(l.a_ptr.val() + idx), modp(ts + 2 * idx + 5)] + vals(seq![l.a]))
    &&& is_interaction(m[7], Bus::MemoryWrite, modp(l.enabled.val() * modp(1 - l.is_init.val())), seq![asp, modp(l.a_ptr.val() + idx), modp(ts + 2 * idx + 5)] + vals(seq![l.a]))
    &&& is_interaction(m[8], Bus::MemoryRead, l.enabled.val(), seq![asp, modp(l.b_ptr.val() + 4 * idx), modp(ts + 2 * idx + 6)] + vals(l.b@))
    &&& is_interaction(m[9], Bus::MemoryWrite, last, seq![asp, l.result_ptr.val(), modp(ts + 2 * idx + 7)] + vals(l.current@))
}

impl FriReducedOpeningAir {
    /// Evaluates the constraints that concern one row.
    pub fn eval_local(c: &FriReducedOpeningCols) -> (r: bool)
        ensures
            r == fri_local_ok(*c),
    {
        reveal(fri_local_ok);
        let one = BabyBear::one();
        let enabled_ok = vanishes(c.enabled, c.enabled, one, Ghost(c.enabled.val()), Ghost(1));
        proof {
            crate::field::lemma_modp_small(1);
        }
        let mut first_ok = true;
        let ab = FieldExtension::multiply(c.alpha_pow_current, c.b);
        let mut i: usize = 0;
        while i < 4
            invariant
                i <= 4,
                ext_vals(ab) == crate::extension::ext_mul_spec(c.alpha_pow_current, c.b),
                first_ok == forall|j: int| 0 <= j < i ==> #[trigger] fri_first_coord_ok(*c, j),
            decreases 4 - i,
        {
            let ap = c.alpha_pow_current[i];
            let t = ap.mul(c.a);
            let ghost m = ext_mul_int(ext_vals(c.alpha_pow_current), ext_vals(c.b))[i as int];
            proof {
                crate::field::lemma_modp_basics(m);
                crate::field::lemma_modp_basics(ap.val() * c.a.val());
                crate::field::lemma_modp_basics(c.current[i as int].val());
            }
            let zero = BabyBear::zero();
            let y = sub_add(ab[i], t, zero, Ghost(m), Ghost(ap.val() * c.a.val()));
            proof {
                crate::field::lemma_modp_small(0);
                assert(m - ap.val() * c.a.val() + zero.val() == m - ap.val() * c.a.val());
            }
            let ok_pow = vanishes(
                c.idx_is_zero,
                ap,
                c.alpha_pow_original[i],
                Ghost(c.idx_is_zero.val()),
                Ghost(c.alpha_pow_original[i as int].val()),
            );
            let ok_cur = vanishes(
                c.idx_is_zero,
                c.current[i],
                y,
                Ghost(c.idx_is_zero.val()),
                Ghost(m - ap.val() * c.a.val()),
            );
            proof {
                lemma_ext_vals_index(c.alpha_pow_current, i as int);
                lemma_ext_vals_index(c.alpha_pow_original, i as int);
                lemma_ext_vals_index(c.current, i as int);
                assert(fri_first_coord_ok(*c, i as int) == (ok_pow && ok_cur));
            }
            first_ok = first_ok && ok_pow && ok_cur;
            i = i + 1;
        }
        let zero = BabyBear::zero();
        let iz1 = vanishes(c.idx, c.idx_is_zero, zero, Ghost(c.idx.val()), Ghost(0));
        proof {
            crate::field::lemma_modp_small(0);
            assert(c.idx.val() * (c.idx_is_zero.val() - 0) == c.idx.val() * c.idx_is_zero.val());
        }
        let ia = c.idx.mul(c.is_zero_aux);
        let s = c.idx_is_zero.add(ia);
        let iz2 = s.v == 1;
        proof {
            let e = c.idx_is_zero.val() + c.idx.val() * c.is_zero_aux.val();
            crate::field::lemma_modp_basics(c.idx.val() * c.is_zero_aux.val());
            crate::field::lemma_eqm_add(
                c.idx_is_zero.val(),
                c.idx_is_zero.val(),
                ia.val(),
                c.idx.val() * c.is_zero_aux.val(),
            );
            crate::field::lemma_modp_basics(e);
            crate::field::lemma_eqm_sub(e, e, 1, 1);
            crate::field::lemma_modp_small(s.val());
            if modp(e - 1) == 0 {
                crate::field::lemma_eqm_add(e - 1, 0, 1, 1);
            }
            crate::field::lemma_eqm_sub(e, e, 1, 1);
        }
        enabled_ok && first_ok && iz1 && iz2
    }

    /// Evaluates the transition constraints between `local` and `next`.
    pub fn eval_transition(local: &FriReducedOpeningCols, next: &FriReducedOpeningCols) -> (r: bool)
        ensures
            r == fri_transition_ok(*local, *next),
    {
        reveal(fri_transition_ok);
        let one = BabyBear::one();
        let g = one.sub(next.idx_is_zero);
        let ghost ge = 1 - next.idx_is_zero.val();
        proof {
            crate::field::lemma_modp_small(1);
            crate::field::lemma_modp_basics(ge);
        }
        let nab = FieldExtension::multiply(next.alpha_pow_current, next.b);
        let la = FieldExtension::multiply(local.alpha, local.alpha_pow_current);
        let mut coords_ok = true;
        let mut i: usize = 0;
        while i < 4
            invariant
                i <= 4,
                modp(g.val()) == modp(ge),
                ge == 1 - next.idx_is_zero.val(),
                ext_vals(nab) == crate::extension::ext_mul_spec(next.alpha_pow_current, next.b),
                ext_vals(la) == crate::extension::ext_mul_spec(local.alpha, local.alpha_pow_current),
                coords_ok == forall|j: int|
                    0 <= j < i ==> #[trigger] fri_transition_coord_ok(*local, *next, j),
            decreases 4 - i,
        {
            let nap = next.alpha_pow_current[i];
            let t = nap.mul(next.a);
            let ghost m = ext_mul_int(ext_vals(next.alpha_pow_current), ext_vals(next.b))[i as int];
            let ghost q = ext_mul_int(ext_vals(local.alpha), ext_vals(local.alpha_pow_current))[i as int];
            proof {
                crate::field::lemma_modp_basics(m);
                crate::field::lemma_modp_basics(q);
                crate::field::lemma_modp_basics(nap.val() * next.a.val());
            }
            let y = sub_add(nab[i], t, local.current[i], Ghost(m), Ghost(nap.val() * next.a.val()));
            let ok_cur = vanishes(
                g,
                next.current[i],
                y,
                Ghost(ge),
                Ghost(m - nap.val() * next.a.val() + local.current[i as int].val()),
            );
            let ok_alpha = vanishes(
                g,
                next.alpha[i],
                local.alpha[i],
                Ghost(ge),
                Ghost(local.alpha[i as int].val()),
            );
            let ok_orig = vanishes(
                g,
                next.alpha_pow_original[i],
                local.alpha_pow_original[i],
                Ghost(ge),
                Ghost(local.alpha_pow_original[i as int].val()),
            );
            let ok_pow = vanishes(g, nap, la[i], Ghost(ge), Ghost(q));
            proof {
                lemma_ext_vals_index(next.alpha_pow_current, i as int);
                lemma_ext_vals_index(next.current, i as int);
                lemma_ext_vals_index(local.current, i as int);
                assert(fri_transition_coord_ok(*local, *next, i as int) == (ok_cur && ok_alpha
                    && ok_orig && ok_pow));
            }
            coords_ok = coords_ok && ok_cur && ok_alpha && ok_orig && ok_pow;
            i = i + 1;
        }
        let idx1 = local.idx.add(one);
        proof {
            crate::field::lemma_modp_basics(local.idx.val() + 1);
        }
        let ok_idx = vanishes(g, next.idx, idx1, Ghost(ge), Ghost(local.idx.val() + 1));
        let ok_en = vanishes(g, next.enabled, local.enabled, Ghost(ge), Ghost(local.enabled.val()));
        let ok_ts = vanishes(
            g,
            next.start_timestamp,
            local.start_timestamp,
            Ghost(ge),
            Ghost(local.start_timestamp.val()),
        );
        coords_ok && ok_idx && ok_en && ok_ts
    }

    /// Evaluates all polynomial constraints of the AIR on the row `local` followed by `next`,
    /// and returns the row's bus messages: the instruction's execution and its memory accesses
    /// (see `fri_interactions_ok`).
    pub fn eval(&self, local: &FriReducedOpeningCols, next: &FriReducedOpeningCols) -> (r: (bool, Vec<Interaction>))
        requires
            self.offset < BABY_BEAR_P,
        ensures
            r.0 == fri_rows_ok(*local, *next),
            fri_interactions_ok(self.offset, *local, *next, r.1@),
    {
        let ok_local = Self::eval_local(local);
        let ok_transition = Self::eval_transition(local, next);
        let l = local;
        let last = l.enabled.mul(next.idx_is_zero);
        let ts = l.start_timestamp;
        let idx = l.idx;
        let asp = l.addr_space;
        let mut m: Vec<Interaction> = Vec::new();
        let operands = [
            l.a_ptr_ptr,
            l.b_ptr_ptr,
            l.length_ptr,
            l.alpha_ptr,
            l.result_ptr,
            l.hint_id_ptr,
            l.is_init_ptr,
        ];
        let opcode = BabyBear::from_canonical_usize(self.offset);
        m.push(
            execution_message(
                last,
                opcode,
                operands.as_slice(),
                l.pc,
                ts,
                lin(l.pc, 0, idx, 4),
                lin(ts, 2, idx, 8),
            ),
        );
        m.push(memory_message(Bus::MemoryRead, last, asp, l.alpha_ptr, ts, l.alpha.as_slice()));
        let length = [lin(idx, 0, idx, 1)];
        m.push(memory_message(Bus::MemoryRead, last, asp, l.length_ptr, lin(ts, 0, idx, 1), length.as_slice()));
        let a_ptr = [l.a_ptr];
        m.push(memory_message(Bus::MemoryRead, last, asp, l.a_ptr_ptr, lin(ts, 0, idx, 2), a_ptr.as_slice()));
        let b_ptr = [l.b_ptr];
        m.push(memory_message(Bus::MemoryRead, last, asp, l.b_ptr_ptr, lin(ts, 0, idx, 3), b_ptr.as_slice()));
        let flag = [l.is_init];
        m.push(memory_message(Bus::MemoryRead, last, asp, l.is_init_ptr, lin(ts, 0, idx, 4), flag.as_slice()));
        let a = [l.a];
        let a_addr = lin(l.a_ptr, 1, idx, 0);
        let a_ts = lin(ts, 2, idx, 5);
        let read_count = l.enabled.mul(l.is_init);
        let write_count = l.enabled.mul(BabyBear::one().sub(l.is_init));
        m.push(memory_message(Bus::MemoryRead, read_count, asp, a_addr, a_ts, a.as_slice()));
        m.push(memory_message(Bus::MemoryWrite, write_count, asp, a_addr, a_ts, a.as_slice()));
        m.push(memory_message(Bus::MemoryRead, l.enabled, asp, lin(l.b_ptr, 4, idx, 0), lin(ts, 2, idx, 6), l.b.as_slice()));
        m.push(memory_message(Bus::MemoryWrite, last, asp, l.result_ptr, lin(ts, 2, idx, 7), l.current.as_slice()));
        proof {
            lemma_modp_small(self.offset as int);
            assert(operands@ =~= seq![
                l.a_ptr_ptr,
                l.b_ptr_ptr,
                l.length_ptr,
                l.alpha_ptr,
                l.result_ptr,
                l.hint_id_ptr,
                l.is_init_ptr,
            ]);
        }
        (ok_local && ok_transition, m)
    }
}

/// A reduced sequence is congruent to the sequence.
proof fn lemma_reduce4_eqm(s: Seq<int>)
    requires
        s.len() == 4,
    ensures
        eqm4(reduce4(s), s),
        reduce4(s).len() == 4,
{
    lemma_modp_basics(s[0]);
    lemma_modp_basics(s[1]);
    lemma_modp_basics(s[2]);
    lemma_modp_basics(s[3]);
}

/// The base values of a run of rows.
pub open spec fn rows_a(rows: Seq<FriReducedOpeningCols>) -> Seq<int> {
    Seq::new(rows.len(), |k: int| rows[k].a.val())
}

/// The extension values of a run of rows.
pub open spec fn rows_b(rows: Seq<FriReducedOpeningCols>) -> Seq<Seq<int>> {
    Seq::new(rows.len(), |k: int| ext_vals(rows[k].b))
}

/// `rows` is the run of rows of one instruction that the constraints accept: the first starts
/// the instruction, every row meets the constraints of a row, and each next row continues it.
pub open spec fn fri_accepted_run(rows: Seq<FriReducedOpeningCols>) -> bool {
    &&& rows.len() >= 1
    &&& rows[0].idx_is_zero.val() == 1
    &&& forall|k: int| 0 <= k < rows.len() ==> #[trigger] fri_local_ok(rows[k])
    &&& forall|k: int| 0 <= k < rows.len() - 1 ==> #[trigger] fri_run_step_ok(rows, k)
}

/// Row `k + 1` continues the instruction of row `k`, and the pair meets the transition
/// constraints.
pub open spec fn fri_run_step_ok(rows: Seq<FriReducedOpeningCols>, k: int) -> bool {
    fri_transition_ok(rows[k], rows[k + 1]) && rows[k + 1].idx_is_zero.val() == 0
}

/// What the constraints force on the `k`-th row of an accepted run: its running power of
/// `alpha` and its running sum are those of the reduced opening of the run's values, with the
/// first row's `alpha` and starting power.
pub open spec fn fri_run_row_ok(rows: Seq<FriReducedOpeningCols>, k: int) -> bool {
    let alpha = reduce4(ext_vals(rows[0].alpha));
    let ap0 = reduce4(ext_vals(rows[0].alpha_pow_original));
    let (cur, _) = fri_sum(rows_a(rows), rows_b(rows), alpha, ap0, (k + 1) as nat);
    let (_, ap) = fri_sum(rows_a(rows), rows_b(rows), alpha, ap0, k as nat);
    &&& eqm4(ext_vals(rows[k].current), cur)
    &&& eqm4(ext_vals(rows[k].alpha_pow_current), ap)
    &&& eqm4(ext_vals(rows[k].alpha), alpha)
}

/// The running values of `fri_sum` have four coordinates.
proof fn lemma_fri_sum_len(a: Seq<int>, b: Seq<Seq<int>>, alpha: Seq<int>, ap: Seq<int>, n: nat)
    requires
        ap.len() == 4,
    ensures
        fri_sum(a, b, alpha, ap, n).0.len() == 4,
        fri_sum(a, b, alpha, ap, n).1.len() == 4,
    decreases n,
{
    if n > 0 {
        lemma_fri_sum_len(a, b, alpha, ap, (n - 1) as nat);
    }
}

/// The first-row constraints of one coordinate, on a first row.
proof fn lemma_first_coord(r: FriReducedOpeningCols, i: int)
    requires
        0 <= i < 4,
        fri_first_coord_ok(r, i),
        r.idx_is_zero.val() == 1,
    ensures
        modp(ext_vals(r.alpha_pow_current)[i]) == modp(ext_vals(r.alpha_pow_original)[i]),
        modp(ext_vals(r.current)[i]) == modp(
            ext_mul_int(ext_vals(r.alpha_pow_current), ext_vals(r.b))[i] - ext_vals(r.alpha_pow_current)[i]
                * r.a.val(),
        ),
{
    let ap = ext_vals(r.alpha_pow_current);
    let x = ext_mul_int(ap, ext_vals(r.b))[i] - ap[i] * r.a.val();
    assert(1 * (ap[i] - ext_vals(r.alpha_pow_original)[i]) == ap[i] - ext_vals(r.alpha_pow_original)[i]);
    assert(1 * (ext_vals(r.current)[i] - x) == ext_vals(r.current)[i] - x);
    vstd::arithmetic::div_mod::lemma_mod_equivalence(ap[i], ext_vals(r.alpha_pow_original)[i], BABY_BEAR_P as int);
    vstd::arithmetic::div_mod::lemma_mod_equivalence(ext_vals(r.current)[i], x, BABY_BEAR_P as int);
}

/// The transition constraints of one coordinate, into a row that continues an instruction.
proof fn lemma_transition_coord(l: FriReducedOpeningCols, r: FriReducedOpeningCols, i: int)
    requires
        0 <= i < 4,
        fri_transition_coord_ok(l, r, i),
        r.idx_is_zero.val() == 0,
    ensures
        modp(ext_vals(r.current)[i]) == modp(
            ext_mul_int(ext_vals(r.alpha_pow_current), ext_vals(r.b))[i] - ext_vals(r.alpha_pow_current)[i]
                * r.a.val() + ext_vals(l.current)[i],
        ),
        modp(ext_vals(r.alpha)[i]) == modp(ext_vals(l.alpha)[i]),
        modp(ext_vals(r.alpha_pow_current)[i]) == modp(
            ext_mul_int(ext_vals(l.alpha), ext_vals(l.alpha_pow_current))[i],
        ),
{
    let ap = ext_vals(r.alpha_pow_current);
    let x = ext_mul_int(ap, ext_vals(r.b))[i] - ap[i] * r.a.val() + ext_vals(l.current)[i];
    let y = ext_mul_int(ext_vals(l.alpha), ext_vals(l.alpha_pow_current))[i];
    assert(1 * (ext_vals(r.current)[i] - x) == ext_vals(r.current)[i] - x);
    assert(1 * (r.alpha[i].val() - l.alpha[i].val()) == r.alpha[i].val() - l.alpha[i].val());
    assert(1 * (ap[i] - y) == ap[i] - y);
    vstd::arithmetic::div_mod::lemma_mod_equivalence(ext_vals(r.current)[i], x, BABY_BEAR_P as int);
    vstd::arithmetic::div_mod::lemma_mod_equivalence(r.alpha[i].val(), l.alpha[i].val(), BABY_BEAR_P as int);
    vstd::arithmetic::div_mod::lemma_mod_equivalence(ap[i], y, BABY_BEAR_P as int);
}

/// The sum through a new term, from a power and a previous sum congruent to those of the
/// reduced opening.
proof fn lemma_sum_step(r: FriReducedOpeningCols, cur: Seq<int>, s: Seq<int>, ap_s: Seq<int>)
    requires
        cur.len() == 4,
        s.len() == 4,
        ap_s.len() == 4,
        eqm4(cur, s),
        eqm4(ext_vals(r.alpha_pow_current), ap_s),
        forall|i: int|
            0 <= i < 4 ==> modp(#[trigger] ext_vals(r.current)[i]) == modp(
                ext_mul_int(ext_vals(r.alpha_pow_current), ext_vals(r.b))[i] - ext_vals(
                    r.alpha_pow_current,
                )[i] * r.a.val() + cur[i],
            ),
    ensures
        eqm4(ext_vals(r.current), eadd(s, emul(esub(ext_vals(r.b), seq![r.a.val(), 0, 0, 0]), ap_s))),
{
    let ap = ext_vals(r.alpha_pow_current);
    let b = ext_vals(r.b);
    let a = r.a.val();
    lemma_fri_step(s, b, a, seq![a, 0, 0, 0], ap_s);
    lemma_ext_mul_cong2(ap, ap_s, b, b);
    assert forall|i: int| 0 <= i < 4 implies modp(ext_vals(r.current)[i]) == modp(
        eadd(s, emul(esub(b, seq![a, 0, 0, 0]), ap_s))[i],
    ) by {
        crate::field::lemma_eqm_mul(ap[i], ap_s[i], a, a);
        crate::field::lemma_eqm_sub(ext_mul_int(ap, b)[i], ext_mul_int(ap_s, b)[i], ap[i] * a, ap_s[i] * a);
        crate::field::lemma_eqm_add(
            ext_mul_int(ap, b)[i] - ap[i] * a,
            ext_mul_int(ap_s, b)[i] - ap_s[i] * a,
            cur[i],
            s[i],
        );
    }
}

/// The first row of an accepted run.
#[verifier::spinoff_prover]
proof fn lemma_fri_run_first(rows: Seq<FriReducedOpeningCols>)
    requires
        fri_accepted_run(rows),
    ensures
        fri_run_row_ok(rows, 0),
{
    let r = rows[0];
    let alpha = reduce4(ext_vals(r.alpha));
    let ap0 = reduce4(ext_vals(r.alpha_pow_original));
    let av = rows_a(rows);
    let bv = rows_b(rows);
    lemma_reduce4_eqm(ext_vals(r.alpha));
    lemma_reduce4_eqm(ext_vals(r.alpha_pow_original));
    assert(fri_local_ok(r));
    reveal(fri_local_ok);
    assert forall|i: int| 0 <= i < 4 implies modp(#[trigger] ext_vals(r.alpha_pow_current)[i])
        == modp(ext_vals(r.alpha_pow_original)[i]) && modp(ext_vals(r.current)[i]) == modp(
        ext_mul_int(ext_vals(r.alpha_pow_current), ext_vals(r.b))[i] - ext_vals(r.alpha_pow_current)[i]
            * r.a.val() + zero4()[i],
    ) by {
        assert(fri_first_coord_ok(r, i));
        lemma_first_coord(r, i);
    }
    lemma_sum_step(r, zero4(), zero4(), ap0);
    assert(av[0] == r.a.val());
    assert(bv[0] == ext_vals(r.b));
    assert(fri_sum(av, bv, alpha, ap0, 0) == (zero4(), ap0));
    assert(fri_sum(av, bv, alpha, ap0, 1).0 == eadd(zero4(), emul(esub(bv[0], seq![av[0], 0, 0, 0]), ap0)));
}

/// A row that continues an instruction, from the row before it: its power, `alpha` and sum
/// follow from those of the row before.
#[verifier::spinoff_prover]
proof fn lemma_next_row_vals(
    l: FriReducedOpeningCols,
    r: FriReducedOpeningCols,
    alpha: Seq<int>,
    ap_prev: Seq<int>,
    s_k: Seq<int>,
)
    requires
        fri_transition_ok(l, r),
        r.idx_is_zero.val() == 0,
        alpha.len() == 4,
        ap_prev.len() == 4,
        s_k.len() == 4,
        eqm4(ext_vals(l.alpha), alpha),
        eqm4(ext_vals(l.alpha_pow_current), ap_prev),
        eqm4(ext_vals(l.current), s_k),
    ensures
        eqm4(ext_vals(r.alpha), alpha),
        eqm4(ext_vals(r.alpha_pow_current), emul(alpha, ap_prev)),
        eqm4(
            ext_vals(r.current),
            eadd(s_k, emul(esub(ext_vals(r.b), seq![r.a.val(), 0, 0, 0]), emul(alpha, ap_prev))),
        ),
{
    reveal(fri_transition_ok);
    assert forall|i: int| 0 <= i < 4 implies fri_transition_coord_ok(l, r, i) by {}
    assert forall|i: int| 0 <= i < 4 implies modp(#[trigger] ext_vals(r.current)[i]) == modp(
        ext_mul_int(ext_vals(r.alpha_pow_current), ext_vals(r.b))[i] - ext_vals(r.alpha_pow_current)[i]
            * r.a.val() + ext_vals(l.current)[i],
    ) by {
        lemma_transition_coord(l, r, i);
    }
    assert forall|i: int| 0 <= i < 4 implies modp(#[trigger] ext_vals(r.alpha)[i]) == modp(ext_vals(l.alpha)[i]) by {
        lemma_transition_coord(l, r, i);
    }
    assert forall|i: int| 0 <= i < 4 implies modp(#[trigger] ext_vals(r.alpha_pow_current)[i]) == modp(
        ext_mul_int(ext_vals(l.alpha), ext_vals(l.alpha_pow_current))[i],
    ) by {
        lemma_transition_coord(l, r, i);
    }
    lemma_ext_mul_cong2(ext_vals(l.alpha), alpha, ext_vals(l.alpha_pow_current), ap_prev);
    lemma_reduce4_eqm(ext_mul_int(alpha, ap_prev));
    let ap_k = emul(alpha, ap_prev);
    assert(eqm4(ext_vals(r.alpha_pow_current), ap_k));
    lemma_sum_step(r, ext_vals(l.current), s_k, ap_k);
}

/// A row of an accepted run after the first, from the row before it.
#[verifier::spinoff_prover]
#[verifier::rlimit(100)]
proof fn lemma_fri_run_next(rows: Seq<FriReducedOpeningCols>, k: int)
    requires
        fri_accepted_run(rows),
        1 <= k < rows.len(),
        fri_run_row_ok(rows, k - 1),
    ensures
        fri_run_row_ok(rows, k),
{
    let j = k - 1;
    assert(fri_run_step_ok(rows, j));
    let alpha = reduce4(ext_vals(rows[0].alpha));
    let ap0 = reduce4(ext_vals(rows[0].alpha_pow_original));
    let av = rows_a(rows);
    let bv = rows_b(rows);
    lemma_fri_sum_len(av, bv, alpha, ap0, j as nat);
    lemma_fri_sum_len(av, bv, alpha, ap0, k as nat);
    let ap_prev = fri_sum(av, bv, alpha, ap0, j as nat).1;
    let s_k = fri_sum(av, bv, alpha, ap0, k as nat).0;
    lemma_next_row_vals(rows[j], rows[j + 1], alpha, ap_prev, s_k);
    assert(rows[j + 1] == rows[k]);
    assert(av[k] == rows[k].a.val());
    assert(bv[k] == ext_vals(rows[k].b));
    assert(fri_sum(av, bv, alpha, ap0, k as nat).1 == emul(alpha, ap_prev));
    assert(fri_sum(av, bv, alpha, ap0, (k + 1) as nat).0 == eadd(
        s_k,
        emul(esub(bv[k], seq![av[k], 0, 0, 0]), fri_sum(av, bv, alpha, ap0, k as nat).1),
    ));
}

/// One row of an accepted run, by induction from the first.
proof fn lemma_fri_run_row(rows: Seq<FriReducedOpeningCols>, k: int)
    requires
        fri_accepted_run(rows),
        0 <= k < rows.len(),
    ensures
        fri_run_row_ok(rows, k),
    decreases k,
{
    if k == 0 {
        lemma_fri_run_first(rows);
    } else {
        lemma_fri_run_row(rows, k - 1);
        lemma_fri_run_next(rows, k);
    }
}

/// The rows of one instruction that the constraints accept compute the reduced opening: on every
/// row the running power of `alpha` and the running sum are, modulo `p`, those of the reduced
/// opening of the values of the rows so far, with the first row's `alpha` and starting power;
/// in particular the last row holds the whole sum.
pub proof fn lemma_fri_accepted_run_sums(rows: Seq<FriReducedOpeningCols>)
    requires
        fri_accepted_run(rows),
    ensures
        forall|k: int| 0 <= k < rows.len() ==> #[trigger] fri_run_row_ok(rows, k),
{
    assert forall|k: int| 0 <= k < rows.len() implies #[trigger] fri_run_row_ok(rows, k) by {
        lemma_fri_run_row(rows, k);
    }
}

} // verus!
