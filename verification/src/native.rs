//! The native extension of the VM: which chip executes each native opcode, and the phantom
//! sub-executors that fill the hint stream or print.
use crate::field::{BabyBear, BABY_BEAR_P};
use crate::machine::{cell, ExecutionError, Memory, Streams};
use crate::opcodes::{
    BranchEqualOpcode, FieldArithmeticOpcode, FieldExtensionOpcode, FriOpcode,
    NativeBranchEqualOpcode, NativeJalOpcode, NativeLoadStore4Opcode, NativeLoadStoreOpcode,
    NativePhantom, Poseidon2Opcode, VmOpcode,
};
use crate::poseidon2::NativePoseidon2Chip;
use std::collections::VecDeque;
use vstd::prelude::*;

verus! {

/// The native extension.
#[derive(Clone, Copy, Debug, Default)]
pub struct Native;

/// The chips of the native extension.
#[derive(Clone, Copy, Debug, PartialEq, Eq, Structural)]
pub enum NativeExecutor {
    LoadStore,
    BlockLoadStore,
    BranchEqual,
    Jal,
    FieldArithmetic,
    FieldExtension,
    /// The Poseidon2 chip without S-box registers (for constraint degree 7 and more).
    Poseidon2Register0,
    /// The Poseidon2 chip with one S-box register.
    Poseidon2Register1,
    FriReducedOpening,
}

/// The phantom sub-executors of the native extension.
#[derive(Clone, Copy, Debug, PartialEq, Eq, Structural)]
pub enum NativePhantomExecutor {
    HintInput,
    HintBits,
    Print,
}

/// Why an inventory could not be built.
#[derive(Clone, Copy, Debug, PartialEq, Eq, Structural)]
pub enum VmInventoryError {
    /// The opcode already has an executor.
    ExecutorExists { opcode: usize },
    /// The phantom discriminant already has a sub-executor.
    PhantomSubExecutorExists { discriminant: u16 },
}

/// Which executor runs each opcode of an extension.
pub struct VmInventory {
    pub executors: Vec<(usize, NativeExecutor)>,
}

/// What an extension is built against: the maximal constraint degree of the system, and the
/// phantom sub-executors registered so far.
pub struct VmInventoryBuilder {
    pub max_constraint_degree: usize,
    pub phantom: Vec<(u16, NativePhantomExecutor)>,
}

/// The discriminant has a sub-executor.
pub open spec fn phantom_registered(s: Seq<(u16, NativePhantomExecutor)>, d: u16) -> bool {
    exists|i: int| 0 <= i < s.len() && (#[trigger] s[i]).0 == d
}

/// The opcodes with an executor.
pub open spec fn registered(s: Seq<(usize, NativeExecutor)>) -> Set<usize> {
    Set::new(|o: usize| exists|i: int| 0 <= i < s.len() && (#[trigger] s[i]).0 == o)
}

/// No opcode appears twice.
pub open spec fn distinct_opcodes(s: Seq<(usize, NativeExecutor)>) -> bool {
    forall|i: int, j: int| 0 <= i < j < s.len() ==> (#[trigger] s[i]).0 != (#[trigger] s[j]).0
}

/// The executor of an opcode in a table without duplicates.
pub open spec fn executor_of(s: Seq<(usize, NativeExecutor)>, o: usize) -> Option<NativeExecutor> {
    if exists|i: int| 0 <= i < s.len() && (#[trigger] s[i]).0 == o {
        Some(s[choose|i: int| 0 <= i < s.len() && (#[trigger] s[i]).0 == o].1)
    } else {
        None
    }
}

impl VmInventory {
    pub fn new() -> (r: Self)
        ensures
            r.executors@.len() == 0,
    {
        VmInventory { executors: Vec::new() }
    }

    /// Registers `executor` for `opcodes`, failing at the first opcode that already has one.
    pub fn add_executor(&mut self, executor: NativeExecutor, opcodes: &Vec<usize>) -> (r: Result<
        (),
        VmInventoryError,
    >)
        requires
            distinct_opcodes(old(self).executors@),
        ensures
            distinct_opcodes(final(self).executors@),
            r is Ok <==> (forall|k: int| 0 <= k < opcodes@.len() ==> !registered(
                old(self).executors@,
            ).contains(#[trigger] opcodes@[k])) && (forall|k: int, l: int|
                0 <= k < l < opcodes@.len() ==> #[trigger] opcodes@[k] != #[trigger] opcodes@[l]),
            r is Ok ==> final(self).executors@ == old(self).executors@ + opcodes@.map_values(
                |o: usize| (o, executor),
            ),
    {
        let ghost start = self.executors@;
        let mut k: usize = 0;
        while k < opcodes.len()
            invariant
                k <= opcodes@.len(),
                start == old(self).executors@,
                distinct_opcodes(self.executors@),
                self.executors@ == start + opcodes@.take(k as int).map_values(
                    |o: usize| (o, executor),
                ),
                forall|i: int| 0 <= i < k ==> !registered(start).contains(#[trigger] opcodes@[i]),
                forall|i: int, j: int| 0 <= i < j < k ==> #[trigger] opcodes@[i] != #[trigger] opcodes@[j],
            decreases opcodes@.len() - k,
        {
            let o = opcodes[k];
            let mut i: usize = 0;
            while i < self.executors.len()
                invariant
                    i <= self.executors@.len(),
                    k < opcodes@.len(),
                    o == opcodes@[k as int],
                    start == old(self).executors@,
                    distinct_opcodes(self.executors@),
                    self.executors@ == start + opcodes@.take(k as int).map_values(
                        |o: usize| (o, executor),
                    ),
                    forall|j: int| 0 <= j < k ==> !registered(start).contains(#[trigger] opcodes@[j]),
                    forall|j1: int, j2: int|
                        0 <= j1 < j2 < k ==> #[trigger] opcodes@[j1] != #[trigger] opcodes@[j2],
                    forall|j: int| 0 <= j < i ==> (#[trigger] self.executors@[j]).0 != o,
                decreases self.executors@.len() - i,
            {
                if self.executors[i].0 == o {
                    proof {
                        let s = self.executors@;
                        if i < start.len() {
                            assert(s[i as int] == start[i as int]);
                            assert(registered(start).contains(o));
                            assert(registered(old(self).executors@).contains(opcodes@[k as int]));
                        } else {
                            let w = i - start.len();
                            assert(s[i as int] == (start + opcodes@.take(k as int).map_values(
                                |o: usize| (o, executor),
                            ))[i as int]);
                            assert(opcodes@[w as int] == o);
                            assert(opcodes@[w as int] == opcodes@[k as int]);
                        }
                    }
                    return Err(VmInventoryError::ExecutorExists { opcode: o });
                }
                i = i + 1;
            }
            proof {
                let s = self.executors@;
                assert forall|j: int| 0 <= j < start.len() implies (#[trigger] start[j]).0 != o by {
                    assert(s[j] == start[j]);
                }
                assert forall|j: int| 0 <= j < k implies #[trigger] opcodes@[j] != o by {
                    assert(s[start.len() + j].0 == opcodes@[j]);
                }
            }
            self.executors.push((o, executor));
            proof {
                assert(opcodes@.take(k + 1).map_values(|o: usize| (o, executor)) =~= opcodes@.take(
                    k as int,
                ).map_values(|o: usize| (o, executor)).push((o, executor)));
            }
            k = k + 1;
        }
        assert(opcodes@.take(k as int) =~= opcodes@);
        Ok(())
    }

}

impl VmInventoryBuilder {
    /// Registers a phantom sub-executor, failing if its discriminant already has one.
    pub fn add_phantom_sub_executor(
        &mut self,
        executor: NativePhantomExecutor,
        discriminant: u16,
    ) -> (r: Result<(), VmInventoryError>)
        ensures
            final(self).max_constraint_degree == old(self).max_constraint_degree,
            r is Ok <==> !phantom_registered(old(self).phantom@, discriminant),
            r is Err ==> r == Err::<(), _>(VmInventoryError::PhantomSubExecutorExists { discriminant }),
            r is Ok ==> final(self).phantom@ == old(self).phantom@.push((discriminant, executor)),
            r is Err ==> final(self).phantom@ == old(self).phantom@,
    {
        let mut i: usize = 0;
        while i < self.phantom.len()
            invariant
                i <= self.phantom@.len(),
                self.phantom@ == old(self).phantom@,
                self.max_constraint_degree == old(self).max_constraint_degree,
                forall|j: int| 0 <= j < i ==> (#[trigger] self.phantom@[j]).0 != discriminant,
            decreases self.phantom@.len() - i,
        {
            if self.phantom[i].0 == discriminant {
                return Err(VmInventoryError::PhantomSubExecutorExists { discriminant });
            }
            i = i + 1;
        }
        self.phantom.push((discriminant, executor));
        Ok(())
    }
}

/// The opcodes of the native kernel, each with the chip that executes it.
/// The Poseidon2 chip is the one without S-box registers from constraint degree 7 on.
pub open spec fn native_table(max_constraint_degree: usize) -> Seq<(usize, NativeExecutor)> {
    let pos = if max_constraint_degree >= 7 {
        NativeExecutor::Poseidon2Register0
    } else {
        NativeExecutor::Poseidon2Register1
    };
    seq![
        (0x100usize, NativeExecutor::LoadStore),
        (0x101usize, NativeExecutor::LoadStore),
        (0x102usize, NativeExecutor::LoadStore),
        (0x108usize, NativeExecutor::BlockLoadStore),
        (0x109usize, NativeExecutor::BlockLoadStore),
        (0x10ausize, NativeExecutor::BlockLoadStore),
        (0x110usize, NativeExecutor::BranchEqual),
        (0x111usize, NativeExecutor::BranchEqual),
        (0x115usize, NativeExecutor::Jal),
        (0x130usize, NativeExecutor::FieldArithmetic),
        (0x131usize, NativeExecutor::FieldArithmetic),
        (0x132usize, NativeExecutor::FieldArithmetic),
        (0x133usize, NativeExecutor::FieldArithmetic),
        (0x140usize, NativeExecutor::FieldExtension),
        (0x141usize, NativeExecutor::FieldExtension),
        (0x142usize, NativeExecutor::FieldExtension),
        (0x143usize, NativeExecutor::FieldExtension),
        (0x160usize, NativeExecutor::FriReducedOpening),
        (0x150usize, pos),
        (0x151usize, pos),
    ]
}

/// A discriminant is registered after a push exactly when it was before or is the pushed one.
proof fn lemma_phantom_push(s: Seq<(u16, NativePhantomExecutor)>, e: (u16, NativePhantomExecutor), d: u16)
    ensures
        phantom_registered(s.push(e), d) == (phantom_registered(s, d) || e.0 == d),
{
    let t = s.push(e);
    if phantom_registered(s, d) {
        let i = choose|i: int| 0 <= i < s.len() && (#[trigger] s[i]).0 == d;
        assert(t[i] == s[i]);
    }
    if e.0 == d {
        assert(t[s.len() as int] == e);
    }
    if phantom_registered(t, d) {
        let i = choose|i: int| 0 <= i < t.len() && (#[trigger] t[i]).0 == d;
        if i < s.len() {
            assert(t[i] == s[i]);
        }
    }
}

impl Native {
    /// Builds the inventory of the native extension: one chip per opcode class, the Poseidon2
    /// chip chosen by the builder's maximal constraint degree.  The phantom sub-executors for
    /// hint input, hint bits and printing are registered with the builder, in that order; the
    /// first whose discriminant already has one fails the build.
    pub fn build(&self, builder: &mut VmInventoryBuilder) -> (r: Result<VmInventory, VmInventoryError>)
        ensures
            final(builder).max_constraint_degree == old(builder).max_constraint_degree,
            ({
                let old_ph = old(builder).phantom@;
                let input = (0x11u16, NativePhantomExecutor::HintInput);
                let bits = (0x12u16, NativePhantomExecutor::HintBits);
                let print = (0x10u16, NativePhantomExecutor::Print);
                if phantom_registered(old_ph, 0x11) {
                    &&& r == Err::<VmInventory, _>(
                        VmInventoryError::PhantomSubExecutorExists { discriminant: 0x11 },
                    )
                    &&& final(builder).phantom@ == old_ph
                } else if phantom_registered(old_ph, 0x12) {
                    &&& r == Err::<VmInventory, _>(
                        VmInventoryError::PhantomSubExecutorExists { discriminant: 0x12 },
                    )
                    &&& final(builder).phantom@ == old_ph.push(input)
                } else if phantom_registered(old_ph, 0x10) {
                    &&& r == Err::<VmInventory, _>(
                        VmInventoryError::PhantomSubExecutorExists { discriminant: 0x10 },
                    )
                    &&& final(builder).phantom@ == old_ph.push(input).push(bits)
                } else {
                    &&& r is Ok
                    &&& r->Ok_0.executors@ == native_table(old(builder).max_constraint_degree)
                    &&& final(builder).phantom@ == old_ph.push(input).push(bits).push(print)
                }
            }),
    {
        let mut inventory = VmInventory::new();
        let mut single: Vec<usize> = Vec::new();
        single.push(NativeLoadStoreOpcode::LOADW.global_opcode().v);
        single.push(NativeLoadStoreOpcode::STOREW.global_opcode().v);
        single.push(NativeLoadStoreOpcode::HINT_STOREW.global_opcode().v);
        let r = inventory.add_executor(NativeExecutor::LoadStore, &single);
        assert(r is Ok);
        let mut block: Vec<usize> = Vec::new();
        block.push(NativeLoadStore4Opcode(NativeLoadStoreOpcode::LOADW).global_opcode().v);
        block.push(NativeLoadStore4Opcode(NativeLoadStoreOpcode::STOREW).global_opcode().v);
        block.push(NativeLoadStore4Opcode(NativeLoadStoreOpcode::HINT_STOREW).global_opcode().v);
        let r = inventory.add_executor(NativeExecutor::BlockLoadStore, &block);
        let mut branch: Vec<usize> = Vec::new();
        branch.push(NativeBranchEqualOpcode(BranchEqualOpcode::BEQ).global_opcode().v);
        branch.push(NativeBranchEqualOpcode(BranchEqualOpcode::BNE).global_opcode().v);
        let r = inventory.add_executor(NativeExecutor::BranchEqual, &branch);
        let mut jal: Vec<usize> = Vec::new();
        jal.push(NativeJalOpcode::JAL.global_opcode().v);
        let r = inventory.add_executor(NativeExecutor::Jal, &jal);
        let mut arith: Vec<usize> = Vec::new();
        arith.push(FieldArithmeticOpcode::ADD.global_opcode().v);
        arith.push(FieldArithmeticOpcode::SUB.global_opcode().v);
        arith.push(FieldArithmeticOpcode::MUL.global_opcode().v);
        arith.push(FieldArithmeticOpcode::DIV.global_opcode().v);
        let r = inventory.add_executor(NativeExecutor::FieldArithmetic, &arith);
        let mut ext: Vec<usize> = Vec::new();
        ext.push(FieldExtensionOpcode::FE4ADD.global_opcode().v);
        ext.push(FieldExtensionOpcode::FE4SUB.global_opcode().v);
        ext.push(FieldExtensionOpcode::BBE4MUL.global_opcode().v);
        ext.push(FieldExtensionOpcode::BBE4DIV.global_opcode().v);
        let r = inventory.add_executor(NativeExecutor::FieldExtension, &ext);
        let mut fri: Vec<usize> = Vec::new();
        fri.push(FriOpcode::FRI_REDUCED_OPENING.global_opcode().v);
        let r = inventory.add_executor(NativeExecutor::FriReducedOpening, &fri);
        let poseidon2_chip = NativePoseidon2Chip::new(
            Poseidon2Opcode::CLASS_OFFSET,
            builder.max_constraint_degree,
        );
        let pos_executor = match poseidon2_chip {
            NativePoseidon2Chip::Register0(_) => NativeExecutor::Poseidon2Register0,
            NativePoseidon2Chip::Register1(_) => NativeExecutor::Poseidon2Register1,
        };
        let mut pos: Vec<usize> = Vec::new();
        pos.push(Poseidon2Opcode::PERM_POS2.global_opcode().v);
        pos.push(Poseidon2Opcode::COMP_POS2.global_opcode().v);
        let r = inventory.add_executor(pos_executor, &pos);
        assert(inventory.executors@ =~= native_table(builder.max_constraint_degree));
        let r = builder.add_phantom_sub_executor(
            NativePhantomExecutor::HintInput,
            NativePhantom::HintInput.discriminant(),
        );
        if r.is_err() {
            return Err(VmInventoryError::PhantomSubExecutorExists { discriminant: 0x11 });
        }
        let r = builder.add_phantom_sub_executor(
            NativePhantomExecutor::HintBits,
            NativePhantom::HintBits.discriminant(),
        );
        proof {
            lemma_phantom_push(old(builder).phantom@, (0x11u16, NativePhantomExecutor::HintInput), 0x12);
            lemma_phantom_push(old(builder).phantom@, (0x11u16, NativePhantomExecutor::HintInput), 0x10);
        }
        if r.is_err() {
            return Err(VmInventoryError::PhantomSubExecutorExists { discriminant: 0x12 });
        }
        let r = builder.add_phantom_sub_executor(
            NativePhantomExecutor::Print,
            NativePhantom::Print.discriminant(),
        );
        proof {
            lemma_phantom_push(
                old(builder).phantom@.push((0x11u16, NativePhantomExecutor::HintInput)),
                (0x12u16, NativePhantomExecutor::HintBits),
                0x10,
            );
        }
        if r.is_err() {
            return Err(VmInventoryError::PhantomSubExecutorExists { discriminant: 0x10 });
        }
        Ok(inventory)
    }
}

/// Every opcode of the native kernel has exactly one chip, whatever the constraint degree.
pub proof fn lemma_native_opcodes_distinct(max_constraint_degree: usize)
    ensures
        distinct_opcodes(native_table(max_constraint_degree)),
{
}

/// Moves the next input vector into the hint stream, preceded by its length.
pub struct NativeHintInputSubEx;

/// Prints a cell.
pub struct NativePrintSubEx;

/// Puts the low bits of a cell into the hint stream, least significant first.
pub struct NativeHintBitsSubEx;

impl NativeHintInputSubEx {
    /// Replaces the hint stream by the length of the next input vector followed by its
    /// elements; fails when the input stream is exhausted.
    pub fn phantom_execute(&mut self, streams: &mut Streams) -> (r: Result<(), ExecutionError>)
        requires
            old(streams).input_stream@.len() > 0 ==> old(streams).input_stream@[0]@.len()
                < BABY_BEAR_P,
        ensures
            old(streams).input_stream@.len() == 0 <==> r is Err,
            r is Err ==> r == Err::<(), ExecutionError>(ExecutionError::EndOfInputStream)
                && final(streams).input_stream@ == old(streams).input_stream@
                && final(streams).hint_stream@ == old(streams).hint_stream@,
            r is Ok ==> final(streams).input_stream@ == old(streams).input_stream@.drop_first(),
            r is Ok ==> final(streams).hint_stream@ == seq![
                BabyBear { v: old(streams).input_stream@[0]@.len() as u32 },
            ] + old(streams).input_stream@[0]@,
    {
        let hint = match streams.input_stream.pop_front() {
            Some(hint) => hint,
            None => {
                return Err(ExecutionError::EndOfInputStream);
            },
        };
        streams.hint_stream.clear();
        streams.hint_stream.push_back(BabyBear::from_canonical_usize(hint.len()));
        let mut i: usize = 0;
        while i < hint.len()
            invariant
                i <= hint@.len(),
                streams.hint_stream@ == seq![BabyBear { v: hint@.len() as u32 }] + hint@.take(
                    i as int,
                ),
                streams.input_stream@ == old(streams).input_stream@.drop_first(),
            decreases hint@.len() - i,
        {
            streams.hint_stream.push_back(hint[i]);
            proof {
                assert(hint@.take(i + 1) =~= hint@.take(i as int).push(hint@[i as int]));
            }
            i = i + 1;
        }
        assert(hint@.take(i as int) =~= hint@);
        Ok(())
    }
}

impl NativePrintSubEx {
    /// The value to print: the cell `a` of address space `c_upper`, read without an access.
    pub fn phantom_execute(&mut self, memory: &Memory, a: BabyBear, c_upper: u16) -> (r: BabyBear)
        ensures
            r == cell(memory@, c_upper as u32, a.v as int),
    {
        memory.unsafe_read_cell(c_upper as u32, a.as_canonical_u32())
    }
}

/// Bit `i` of `v`.
pub open spec fn bit(v: u32, i: int) -> u32 {
    ((v as int / vstd::arithmetic::power2::pow2(i as nat) as int) % 2) as u32
}

impl NativeHintBitsSubEx {
    /// Replaces the hint stream by the `b` low bits of the cell `a` of address space
    /// `c_upper`, least significant first.
    pub fn phantom_execute(
        &mut self,
        memory: &Memory,
        streams: &mut Streams,
        a: BabyBear,
        b: BabyBear,
        c_upper: u16,
    ) -> (r: Result<(), ExecutionError>)
        ensures
            r is Ok,
            final(streams).input_stream@ == old(streams).input_stream@,
            final(streams).hint_stream@.len() == b.v,
            forall|i: int|
                0 <= i < b.v ==> (#[trigger] final(streams).hint_stream@[i]).v == bit(
                    cell(memory@, c_upper as u32, a.v as int).v,
                    i,
                ),
    {
        let val0 = memory.unsafe_read_cell(c_upper as u32, a.as_canonical_u32()).as_canonical_u32();
        let mut val = val0;
        let len = b.as_canonical_u32();
        streams.hint_stream.clear();
        let mut i: u32 = 0;
        proof {
            vstd::arithmetic::power2::lemma2_to64();
        }
        while i < len
            invariant
                i <= len,
                len == b.v,
                val0 == cell(memory@, c_upper as u32, a.v as int).v,
                val as int == val0 as int / vstd::arithmetic::power2::pow2(i as nat) as int,
                streams.hint_stream@.len() == i,
                streams.input_stream@ == old(streams).input_stream@,
                forall|j: int| 0 <= j < i ==> (#[trigger] streams.hint_stream@[j]).v == bit(val0, j),
            decreases len - i,
        {
            let low = val & 1;
            proof {
                assert(low == val % 2) by (bit_vector)
                    requires
                        low == val & 1,
                ;
            }
            streams.hint_stream.push_back(BabyBear::from_canonical_u32(low));
            let next = val >> 1u32;
            proof {
                assert(next == val / 2) by (bit_vector)
                    requires
                        next == val >> 1u32,
                ;
                vstd::arithmetic::power2::lemma_pow2_unfold((i + 1) as nat);
                vstd::arithmetic::power2::lemma_pow2_pos(i as nat);
                vstd::arithmetic::div_mod::lemma_div_denominator(
                    val0 as int,
                    vstd::arithmetic::power2::pow2(i as nat) as int,
                    2,
                );
                assert(vstd::arithmetic::power2::pow2((i + 1) as nat) == vstd::arithmetic::power2::pow2(i as nat) * 2) by (nonlinear_arith)
                    requires
                        vstd::arithmetic::power2::pow2((i + 1) as nat) == 2 * vstd::arithmetic::power2::pow2(i as nat),
                ;
            }
            val = next;
            i = i + 1;
        }
        Ok(())
    }
}

} // verus!
