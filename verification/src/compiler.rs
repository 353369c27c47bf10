//! The assembly compiler: turns a DSL program into basic blocks of assembly.
//!
//! Block 0 initialises the heap pointer and jumps over block 1, which holds the single `Trap`
//! that every failed assertion jumps to.  Conditionals and loops open new blocks; loop exits
//! (`Break`) are emitted as placeholders and patched into jumps when their loop is closed.
use crate::assembly::{
    branch_effect, exec_field, frame_set, jump_spec, lower_spec, vfp, AsmInstruction, ValueOrConst, HEAP_PTR,
    HEAP_START_ADDRESS,
};
use crate::field::{modp, BabyBear, BABY_BEAR_P};
use crate::ir::{DslIr, RVar, Var};
use crate::lowering::{emit_alloc, lower_ok, lower_straight_line, vok, alloc_ok};
use crate::assembly::alloc_spec;
use crate::ir::Ptr;
use vstd::prelude::*;

verus! {

/// A basic block: a straight run of assembly instructions.
#[derive(Clone, Debug)]
pub struct BasicBlock(pub Vec<AsmInstruction>);

/// A compiled program: its basic blocks in order; the label of a block is its index.
pub struct AssemblyCode {
    pub blocks: Vec<BasicBlock>,
}

impl AssemblyCode {
    pub open spec fn blocks_view(&self) -> Seq<Seq<AsmInstruction>> {
        self.blocks@.map_values(|b: BasicBlock| b.0@)
    }
}

/// The mathematical state of the compiler.
pub struct CompilerModel {
    pub blocks: Seq<Seq<AsmInstruction>>,
    pub break_label: Option<BabyBear>,
    pub break_counter: nat,
    pub contains_break: Seq<usize>,
    pub trap_label: BabyBear,
    pub word_size: usize,
}

impl CompilerModel {
    pub open spec fn wf(self) -> bool {
        &&& self.blocks.len() >= 1
        &&& self.trap_label == BabyBear { v: 1 }
        &&& forall|k: int|
            0 <= k < self.contains_break.len() ==> self.contains_break[k] < self.blocks.len()
    }
}

/// The label of a block, as a field element.
pub open spec fn label(i: int) -> BabyBear {
    BabyBear { v: i as u32 }
}

/// The index of the block being filled.
pub open spec fn cur(m: CompilerModel) -> int {
    m.blocks.len() - 1
}

pub open spec fn push_last(m: CompilerModel, s: Seq<AsmInstruction>) -> CompilerModel {
    CompilerModel { blocks: m.blocks.update(cur(m), m.blocks[cur(m)] + s), ..m }
}

pub open spec fn push_to(m: CompilerModel, b: int, i: AsmInstruction) -> CompilerModel {
    CompilerModel { blocks: m.blocks.update(b, m.blocks[b].push(i)), ..m }
}

pub open spec fn new_block(m: CompilerModel) -> CompilerModel {
    CompilerModel { blocks: m.blocks.push(Seq::empty()), ..m }
}

/// Opens a fresh break label for a loop.
pub open spec fn open_loop(m: CompilerModel) -> CompilerModel {
    CompilerModel {
        break_label: Some(label(m.break_counter as int)),
        break_counter: m.break_counter + 1,
        ..m
    }
}

/// Records that the current block holds a `Break`.
pub open spec fn note_break(m: CompilerModel) -> CompilerModel {
    if m.contains_break.contains(cur(m) as usize) {
        m
    } else {
        CompilerModel { contains_break: m.contains_break.push(cur(m) as usize), ..m }
    }
}

/// Replaces every `Break(brk)` of a block by a jump to `target`.
pub open spec fn patch_block(b: Seq<AsmInstruction>, brk: BabyBear, target: BabyBear) -> Seq<
    AsmInstruction,
> {
    b.map_values(
        |i: AsmInstruction|
            if i == AsmInstruction::Break(brk) {
                jump_spec(target)
            } else {
                i
            },
    )
}

/// Resolves the breaks of a loop in the blocks known to hold a `Break`.
pub open spec fn patch_breaks(m: CompilerModel, brk: BabyBear, target: BabyBear) -> CompilerModel {
    CompilerModel {
        blocks: m.blocks.map(
            |bi: int, b: Seq<AsmInstruction>|
                if m.contains_break.contains(bi as usize) {
                    patch_block(b, brk, target)
                } else {
                    b
                },
        ),
        ..m
    }
}

/// The conditional jump taken to `block` when the condition does not hold.
pub open spec fn branch_spec(lhs: i32, rhs: ValueOrConst, is_eq: bool, block: BabyBear) -> AsmInstruction {
    match rhs {
        ValueOrConst::Const(c) => if is_eq {
            AsmInstruction::BneI(block, lhs, c)
        } else {
            AsmInstruction::BeqI(block, lhs, c)
        },
        ValueOrConst::ExtConst(c) => if is_eq {
            AsmInstruction::BneEI(block, lhs, c)
        } else {
            AsmInstruction::BeqEI(block, lhs, c)
        },
        ValueOrConst::Val(r) => if is_eq {
            AsmInstruction::Bne(block, lhs, r)
        } else {
            AsmInstruction::Beq(block, lhs, r)
        },
        ValueOrConst::ExtVal(r) => if is_eq {
            AsmInstruction::BneE(block, lhs, r)
        } else {
            AsmInstruction::BeqE(block, lhs, r)
        },
    }
}

/// Closes an `if` without `else`: the branching block `start` jumps over the then-blocks.
pub open spec fn close_then(
    start: int,
    mt: CompilerModel,
    lhs: i32,
    rhs: ValueOrConst,
    is_eq: bool,
) -> Option<CompilerModel> {
    if mt.blocks.len() < BABY_BEAR_P {
        Some(
            push_to(
                new_block(mt),
                start,
                branch_spec(lhs, rhs, is_eq, label(mt.blocks.len() as int)),
            ),
        )
    } else {
        None
    }
}

/// Closes an `if` with `else`: the branching block jumps to the else-blocks, and the last
/// then-block jumps over them.
pub open spec fn close_else(
    start: int,
    last_then: int,
    me: CompilerModel,
    lhs: i32,
    rhs: ValueOrConst,
    is_eq: bool,
) -> Option<CompilerModel> {
    if me.blocks.len() < BABY_BEAR_P {
        let m5 = push_to(me, start, branch_spec(lhs, rhs, is_eq, label(last_then + 1)));
        let m6 = new_block(m5);
        Some(push_to(m6, last_then, jump_spec(label(cur(m6)))))
    } else {
        None
    }
}

/// The assignment of the loop variable before a `for` loop.
pub open spec fn set_loop_var_spec(start: RVar, v: Var) -> AsmInstruction {
    match start {
        RVar::Const(c) => AsmInstruction::ImmF(vfp(v), c),
        RVar::Val(s) => AsmInstruction::CopyF(vfp(v), vfp(s)),
    }
}

/// The jump back to the loop body while the loop variable has not reached `end`.
pub open spec fn loop_back_spec(body: int, v: Var, end: RVar) -> AsmInstruction {
    match end {
        RVar::Const(c) => AsmInstruction::BneI(label(body), vfp(v), c),
        RVar::Val(e) => AsmInstruction::Bne(label(body), vfp(v), vfp(e)),
    }
}

/// Closes a `for` loop whose body was compiled into `mb`.
pub open spec fn close_for(
    call: int,
    body: int,
    brk: BabyBear,
    mb: CompilerModel,
    v: Var,
    step: BabyBear,
    end: RVar,
) -> Option<CompilerModel> {
    if mb.blocks.len() + 1 < BABY_BEAR_P {
        let m5 = push_to(mb, cur(mb), AsmInstruction::AddFI(vfp(v), vfp(v), step));
        let m6 = new_block(m5);
        let m7 = push_to(m6, cur(m6), loop_back_spec(body, v, end));
        let m8 = push_to(m7, call, jump_spec(label(cur(m7))));
        let m9 = new_block(m8);
        Some(patch_breaks(m9, brk, label(cur(m9))))
    } else {
        None
    }
}

/// Closes a `loop` whose body was compiled into `mb`.
pub open spec fn close_loop(body: int, brk: BabyBear, mb: CompilerModel) -> Option<CompilerModel> {
    if mb.blocks.len() < BABY_BEAR_P {
        let m4 = push_to(mb, cur(mb), jump_spec(label(body)));
        let m5 = new_block(m4);
        Some(patch_breaks(m5, brk, label(cur(m5))))
    } else {
        None
    }
}

/// A conditional: the then-body is compiled in a new block, the else-body (if any) in the
/// block after it.
pub open spec fn compile_if_spec(
    m: CompilerModel,
    lhs: i32,
    rhs: ValueOrConst,
    is_eq: bool,
    then_result: Option<CompilerModel>,
    else_result: spec_fn(CompilerModel) -> Option<CompilerModel>,
    has_else: bool,
) -> Option<CompilerModel> {
    match then_result {
        None => None,
        Some(mt) => if !has_else {
            close_then(cur(m), mt, lhs, rhs, is_eq)
        } else {
            match else_result(mt) {
                None => None,
                Some(me) => close_else(cur(m), cur(mt), me, lhs, rhs, is_eq),
            }
        },
    }
}

/// The compiler state after one DSL instruction, or `None` where the compiler rejects it.
pub open spec fn build_op_spec(m: CompilerModel, op: DslIr) -> Option<CompilerModel>
    decreases op,
{
    match op {
        DslIr::IfEq(l, r, t, e) => if vok(l) && vok(r) {
            compile_if_spec(
                m,
                vfp(l),
                ValueOrConst::Val(vfp(r)),
                true,
                build_ops_spec(new_block(m), t@),
                |mt: CompilerModel| build_ops_spec(new_block(mt), e@),
                e@.len() > 0,
            )
        } else {
            None
        },
        DslIr::IfNe(l, r, t, e) => if vok(l) && vok(r) {
            compile_if_spec(
                m,
                vfp(l),
                ValueOrConst::Val(vfp(r)),
                false,
                build_ops_spec(new_block(m), t@),
                |mt: CompilerModel| build_ops_spec(new_block(mt), e@),
                e@.len() > 0,
            )
        } else {
            None
        },
        DslIr::IfEqI(l, r, t, e) => if vok(l) {
            compile_if_spec(
                m,
                vfp(l),
                ValueOrConst::Const(r),
                true,
                build_ops_spec(new_block(m), t@),
                |mt: CompilerModel| build_ops_spec(new_block(mt), e@),
                e@.len() > 0,
            )
        } else {
            None
        },
        DslIr::IfNeI(l, r, t, e) => if vok(l) {
            compile_if_spec(
                m,
                vfp(l),
                ValueOrConst::Const(r),
                false,
                build_ops_spec(new_block(m), t@),
                |mt: CompilerModel| build_ops_spec(new_block(mt), e@),
                e@.len() > 0,
            )
        } else {
            None
        },
        DslIr::For(start, end, step, v, body) => {
            if vok(v) && (start matches RVar::Val(s) ==> vok(s)) && (end matches RVar::Val(e) ==> vok(
                e,
            )) && m.break_counter < BABY_BEAR_P {
                let m1 = push_to(m, cur(m), set_loop_var_spec(start, v));
                let m3 = new_block(open_loop(m1));
                match build_ops_spec(m3, body@) {
                    None => None,
                    Some(mb) => close_for(
                        cur(m),
                        cur(m3),
                        label(m.break_counter as int),
                        mb,
                        v,
                        step,
                        end,
                    ),
                }
            } else {
                None
            }
        },
        DslIr::Loop(body) => {
            if m.break_counter < BABY_BEAR_P {
                let m2 = new_block(open_loop(m));
                match build_ops_spec(m2, body@) {
                    None => None,
                    Some(mb) => close_loop(cur(m2), label(m.break_counter as int), mb),
                }
            } else {
                None
            }
        },
        DslIr::Break => match m.break_label {
            Some(l) => Some(push_to(note_break(m), cur(m), AsmInstruction::Break(l))),
            None => None,
        },
        _ => if lower_ok(op, m.word_size) {
            Some(push_last(m, lower_spec(op, m.word_size)))
        } else {
            None
        },
    }
}

/// The compiler state after a sequence of DSL instructions, or `None` where the compiler
/// rejects one of them.
pub open spec fn build_ops_spec(m: CompilerModel, ops: Seq<DslIr>) -> Option<CompilerModel>
    decreases ops,
{
    if ops.len() == 0 {
        Some(m)
    } else {
        match build_ops_spec(m, ops.drop_last()) {
            None => None,
            Some(m1) => build_op_spec(m1, ops.last()),
        }
    }
}

/// The fixed prologue: block 0 sets the heap pointer and jumps over block 1, the trap block.
pub open spec fn prologue_spec(m: CompilerModel) -> CompilerModel {
    if m.blocks.len() == 1 {
        let m1 = push_to(m, 0, AsmInstruction::ImmF(HEAP_PTR, label(HEAP_START_ADDRESS as int)));
        let m2 = push_to(m1, 0, jump_spec(label(2)));
        let m3 = push_to(new_block(m2), 1, AsmInstruction::Trap);
        new_block(m3)
    } else {
        m
    }
}

/// The compiler state after `build`: the prologue (on a fresh compiler), then the program.
pub open spec fn build_spec(m: CompilerModel, ops: Seq<DslIr>) -> Option<CompilerModel> {
    build_ops_spec(prologue_spec(m), ops)
}

/// A prefix of a program that compiles also compiles.
pub proof fn lemma_build_prefix(m: CompilerModel, s: Seq<DslIr>, i: int)
    requires
        build_ops_spec(m, s) is Some,
        0 <= i <= s.len(),
    ensures
        build_ops_spec(m, s.take(i)) is Some,
    decreases s.len() - i,
{
    if i == s.len() {
        assert(s.take(i) =~= s);
    } else {
        lemma_build_prefix(m, s, i + 1);
        assert(s.take(i + 1).drop_last() =~= s.take(i));
    }
}

/// Patching a block twice patches it once.
pub proof fn lemma_patch_idempotent(b: Seq<AsmInstruction>, brk: BabyBear, target: BabyBear)
    ensures
        patch_block(patch_block(b, brk, target), brk, target) == patch_block(b, brk, target),
{
    assert(patch_block(patch_block(b, brk, target), brk, target) =~= patch_block(b, brk, target));
}

/// The conditional jump to `block`, taken when the condition does not hold.
pub fn branch(lhs: i32, rhs: ValueOrConst, is_eq: bool, block: BabyBear) -> (r: AsmInstruction)
    ensures
        r == branch_spec(lhs, rhs, is_eq, block),
{
    match (rhs, is_eq) {
        (ValueOrConst::Const(rhs), true) => AsmInstruction::BneI(block, lhs, rhs),
        (ValueOrConst::Const(rhs), false) => AsmInstruction::BeqI(block, lhs, rhs),
        (ValueOrConst::ExtConst(rhs), true) => AsmInstruction::BneEI(block, lhs, rhs),
        (ValueOrConst::ExtConst(rhs), false) => AsmInstruction::BeqEI(block, lhs, rhs),
        (ValueOrConst::Val(rhs), true) => AsmInstruction::Bne(block, lhs, rhs),
        (ValueOrConst::Val(rhs), false) => AsmInstruction::Beq(block, lhs, rhs),
        (ValueOrConst::ExtVal(rhs), true) => AsmInstruction::BneE(block, lhs, rhs),
        (ValueOrConst::ExtVal(rhs), false) => AsmInstruction::BeqE(block, lhs, rhs),
    }
}

/// The assembly compiler.
pub struct AsmCompiler {
    basic_blocks: Vec<BasicBlock>,
    break_label: Option<BabyBear>,
    break_counter: usize,
    contains_break: Vec<usize>,
    trap_label: BabyBear,
    word_size: usize,
}

impl View for AsmCompiler {
    type V = CompilerModel;

    closed spec fn view(&self) -> CompilerModel {
        CompilerModel {
            blocks: self.basic_blocks@.map_values(|b: BasicBlock| b.0@),
            break_label: self.break_label,
            break_counter: self.break_counter as nat,
            contains_break: self.contains_break@,
            trap_label: self.trap_label,
            word_size: self.word_size,
        }
    }
}

impl AsmCompiler {
    /// Creates a compiler with one empty block.
    pub fn new(word_size: usize) -> (r: Self)
        ensures
            r@.wf(),
            r@ == (CompilerModel {
                blocks: seq![Seq::empty()],
                break_label: None,
                break_counter: 0,
                contains_break: Seq::empty(),
                trap_label: label(1),
                word_size,
            }),
    {
        let mut blocks: Vec<BasicBlock> = Vec::new();
        blocks.push(BasicBlock(Vec::new()));
        let r = AsmCompiler {
            basic_blocks: blocks,
            break_label: None,
            break_counter: 0,
            contains_break: Vec::new(),
            trap_label: BabyBear::one(),
            word_size,
        };
        assert(r@.blocks =~= seq![Seq::<AsmInstruction>::empty()]);
        r
    }

    /// Creates a new break label.
    pub fn new_break_label(&mut self) -> (r: BabyBear)
        requires
            old(self)@.wf(),
            old(self)@.break_counter < BABY_BEAR_P,
        ensures
            final(self)@ == open_loop(old(self)@),
            r == label(old(self)@.break_counter as int),
    {
        let label = BabyBear::from_canonical_usize(self.break_counter);
        self.break_counter = self.break_counter + 1;
        self.break_label = Some(label);
        label
    }

    fn basic_block(&mut self)
        requires
            old(self)@.wf(),
        ensures
            final(self)@ == new_block(old(self)@),
            final(self)@.wf(),
    {
        self.basic_blocks.push(BasicBlock(Vec::new()));
        assert(self@.blocks =~= old(self)@.blocks.push(Seq::empty()));
    }

    fn cur_index(&self) -> (r: usize)
        requires
            self@.wf(),
        ensures
            r == cur(self@),
    {
        self.basic_blocks.len() - 1
    }

    fn push_to_block(&mut self, bi: usize, instruction: AsmInstruction)
        requires
            old(self)@.wf(),
            bi < old(self)@.blocks.len(),
        ensures
            final(self)@ == push_to(old(self)@, bi as int, instruction),
            final(self)@.wf(),
    {
        let mut tmp = BasicBlock(Vec::new());
        self.basic_blocks.set_and_swap(bi, &mut tmp);
        tmp.0.push(instruction);
        self.basic_blocks.set_and_swap(bi, &mut tmp);
        assert(self@.blocks =~= old(self)@.blocks.update(
            bi as int,
            old(self)@.blocks[bi as int].push(instruction),
        ));
    }

    fn push(&mut self, instruction: AsmInstruction)
        requires
            old(self)@.wf(),
        ensures
            final(self)@ == push_to(old(self)@, cur(old(self)@), instruction),
            final(self)@.wf(),
    {
        let last = self.cur_index();
        self.push_to_block(last, instruction);
    }

    /// Appends the lowering of a straight-line instruction to the current block.
    fn push_lowered(&mut self, op: &DslIr)
        requires
            old(self)@.wf(),
            lower_ok(*op, old(self)@.word_size),
        ensures
            final(self)@ == push_last(old(self)@, lower_spec(*op, old(self)@.word_size)),
            final(self)@.wf(),
    {
        let bi = self.cur_index();
        let mut tmp = BasicBlock(Vec::new());
        self.basic_blocks.set_and_swap(bi, &mut tmp);
        lower_straight_line(&mut tmp.0, op, self.word_size);
        self.basic_blocks.set_and_swap(bi, &mut tmp);
        assert(self@.blocks =~= old(self)@.blocks.update(
            bi as int,
            old(self)@.blocks[bi as int] + lower_spec(*op, old(self)@.word_size),
        ));
    }

    /// Allocates `len * size` cells on the heap (rounded up to the word size) and stores the
    /// old heap pointer in `ptr`.
    pub fn heap_alloc(&mut self, ptr: Ptr, len: RVar, size: usize)
        requires
            old(self)@.wf(),
            alloc_ok(ptr, len, size, old(self)@.word_size),
        ensures
            final(self)@ == push_last(
                old(self)@,
                alloc_spec(ptr, len, size, old(self)@.word_size),
            ),
            final(self)@.wf(),
    {
        let bi = self.cur_index();
        let mut tmp = BasicBlock(Vec::new());
        self.basic_blocks.set_and_swap(bi, &mut tmp);
        emit_alloc(&mut tmp.0, ptr, len, size, self.word_size);
        self.basic_blocks.set_and_swap(bi, &mut tmp);
        assert(self@.blocks =~= old(self)@.blocks.update(
            bi as int,
            old(self)@.blocks[bi as int] + alloc_spec(ptr, len, size, old(self)@.word_size),
        ));
    }

    /// Jumps to the trap block unless `lhs == rhs` (when `is_eq`) or `lhs != rhs` (otherwise).
    pub fn assert_cond(&mut self, lhs: i32, rhs: ValueOrConst, is_eq: bool)
        requires
            old(self)@.wf(),
        ensures
            final(self)@ == push_to(
                old(self)@,
                cur(old(self)@),
                branch_spec(lhs, rhs, !is_eq, old(self)@.trap_label),
            ),
            final(self)@.wf(),
    {
        let instruction = branch(lhs, rhs, !is_eq, self.trap_label);
        self.push(instruction);
    }

    /// The compiled program.
    pub fn code(self) -> (r: AssemblyCode)
        ensures
            r.blocks_view() == self@.blocks,
    {
        AssemblyCode { blocks: self.basic_blocks }
    }

    /// Records the current block as holding a `Break`.
    fn note_break(&mut self)
        requires
            old(self)@.wf(),
        ensures
            final(self)@ == note_break(old(self)@),
            final(self)@.wf(),
    {
        let bi = self.cur_index();
        let mut found = false;
        let mut k: usize = 0;
        while k < self.contains_break.len()
            invariant
                self@ == old(self)@,
                self@.wf(),
                bi == cur(self@),
                k <= self.contains_break@.len(),
                found <==> exists|j: int| 0 <= j < k && self.contains_break@[j] == bi,
            decreases self.contains_break.len() - k,
        {
            if self.contains_break[k] == bi {
                found = true;
            }
            k = k + 1;
        }
        if !found {
            self.contains_break.push(bi);
        }
    }

    /// Replaces `Break(brk)` by a jump to `target` in one block.
    fn patch_one(&mut self, bi: usize, brk: BabyBear, target: BabyBear)
        requires
            old(self)@.wf(),
            bi < old(self)@.blocks.len(),
        ensures
            final(self)@ == (CompilerModel {
                blocks: old(self)@.blocks.update(
                    bi as int,
                    patch_block(old(self)@.blocks[bi as int], brk, target),
                ),
                ..old(self)@
            }),
            final(self)@.wf(),
    {
        let mut tmp = BasicBlock(Vec::new());
        self.basic_blocks.set_and_swap(bi, &mut tmp);
        let ghost orig = tmp.0@;
        let mut j: usize = 0;
        while j < tmp.0.len()
            invariant
                tmp.0@.len() == orig.len(),
                j <= orig.len(),
                forall|i: int| 0 <= i < j ==> tmp.0@[i] == patch_block(orig, brk, target)[i],
                forall|i: int| j <= i < orig.len() ==> tmp.0@[i] == orig[i],
            decreases orig.len() - j,
        {
            let is_break = match tmp.0[j] {
                AsmInstruction::Break(l) => l == brk,
                _ => false,
            };
            if is_break {
                tmp.0.set(j, AsmInstruction::j(target));
            }
            j = j + 1;
        }
        assert(tmp.0@ =~= patch_block(orig, brk, target));
        self.basic_blocks.set_and_swap(bi, &mut tmp);
        assert(self@.blocks =~= old(self)@.blocks.update(
            bi as int,
            patch_block(old(self)@.blocks[bi as int], brk, target),
        ));
    }

    /// Resolves the breaks of a loop.
    fn patch_breaks(&mut self, brk: BabyBear, target: BabyBear)
        requires
            old(self)@.wf(),
        ensures
            final(self)@ == patch_breaks(old(self)@, brk, target),
            final(self)@.wf(),
    {
        let ghost m0 = self@;
        let nb = self.basic_blocks.len();
        assert(nb == m0.blocks.len());
        let mut k: usize = 0;
        while k < self.contains_break.len()
            invariant
                self@.wf(),
                m0.blocks.len() == nb,
                self@ == (CompilerModel { blocks: self@.blocks, ..m0 }),
                self@.blocks.len() == m0.blocks.len(),
                k <= m0.contains_break.len(),
                forall|bi: int|
                    0 <= bi < m0.blocks.len() ==> #[trigger] self@.blocks[bi] == if m0.contains_break.take(
                        k as int,
                    ).contains(bi as usize) {
                        patch_block(m0.blocks[bi], brk, target)
                    } else {
                        m0.blocks[bi]
                    },
            decreases m0.contains_break.len() - k,
        {
            let bi = self.contains_break[k];
            assert(self@.contains_break[k as int] < self@.blocks.len());
            let ghost before = self@;
            self.patch_one(bi, brk, target);
            proof {
                lemma_patch_idempotent(m0.blocks[bi as int], brk, target);
                assert(m0.contains_break.take(k + 1) =~= m0.contains_break.take(k as int).push(bi));
                assert forall|b: int| 0 <= b < m0.blocks.len() implies #[trigger] self@.blocks[b]
                    == if m0.contains_break.take(k + 1).contains(b as usize) {
                    patch_block(m0.blocks[b], brk, target)
                } else {
                    m0.blocks[b]
                } by {
                    if m0.contains_break.take(k as int).contains(b as usize) {
                        let w = choose|w: int|
                            0 <= w < k && #[trigger] m0.contains_break.take(k as int)[w]
                                == b as usize;
                        assert(m0.contains_break.take(k + 1)[w] == b as usize);
                    }
                    if b == bi as int {
                        assert(m0.contains_break.take(k + 1)[k as int] == bi);
                    } else {
                        assert(before.blocks[b] == self@.blocks[b]);
                        if m0.contains_break.take(k + 1).contains(b as usize) {
                            let w = choose|w: int|
                                0 <= w < k + 1 && #[trigger] m0.contains_break.take(k + 1)[w]
                                    == b as usize;
                            assert(w < k);
                            assert(m0.contains_break.take(k as int)[w] == b as usize);
                        }
                    }
                }
            }
            k = k + 1;
        }
        proof {
            assert(m0.contains_break.take(k as int) =~= m0.contains_break);
            assert(self@.blocks =~= patch_breaks(m0, brk, target).blocks);
        }
    }

    /// Closes an `if` without `else` opened at block `start`.
    fn close_then(&mut self, start: usize, lhs: i32, rhs: ValueOrConst, is_eq: bool)
        requires
            old(self)@.wf(),
            start < old(self)@.blocks.len(),
            close_then(start as int, old(self)@, lhs, rhs, is_eq) is Some,
        ensures
            Some(final(self)@) == close_then(start as int, old(self)@, lhs, rhs, is_eq),
            final(self)@.wf(),
    {
        let after = self.basic_blocks.len();
        self.basic_block();
        let instruction = branch(lhs, rhs, is_eq, BabyBear::from_canonical_usize(after));
        self.push_to_block(start, instruction);
    }

    /// Closes an `if` with `else` opened at block `start`, whose then-part ended in `last_then`.
    fn close_else(
        &mut self,
        start: usize,
        last_then: usize,
        lhs: i32,
        rhs: ValueOrConst,
        is_eq: bool,
    )
        requires
            old(self)@.wf(),
            start < old(self)@.blocks.len(),
            last_then < old(self)@.blocks.len(),
            close_else(start as int, last_then as int, old(self)@, lhs, rhs, is_eq) is Some,
        ensures
            Some(final(self)@) == close_else(
                start as int,
                last_then as int,
                old(self)@,
                lhs,
                rhs,
                is_eq,
            ),
            final(self)@.wf(),
    {
        let else_label = BabyBear::from_canonical_usize(last_then + 1);
        let instruction = branch(lhs, rhs, is_eq, else_label);
        self.push_to_block(start, instruction);
        self.basic_block();
        let main = BabyBear::from_canonical_usize(self.cur_index());
        self.push_to_block(last_then, AsmInstruction::j(main));
    }

    /// Closes a `for` loop whose set-up is in block `call` and whose body starts at `body`.
    fn close_for(
        &mut self,
        call: usize,
        body: usize,
        brk: BabyBear,
        v: Var,
        step: BabyBear,
        end: RVar,
    )
        requires
            old(self)@.wf(),
            call < old(self)@.blocks.len(),
            body < old(self)@.blocks.len(),
            vok(v),
            end matches RVar::Val(e) ==> vok(e),
            close_for(call as int, body as int, brk, old(self)@, v, step, end) is Some,
        ensures
            Some(final(self)@) == close_for(call as int, body as int, brk, old(self)@, v, step, end),
            final(self)@.wf(),
    {
        self.push(AsmInstruction::AddFI(v.fp(), v.fp(), step));
        self.basic_block();
        let body_label = BabyBear::from_canonical_usize(body);
        let back = match end {
            RVar::Const(c) => AsmInstruction::BneI(body_label, v.fp(), c),
            RVar::Val(e) => AsmInstruction::Bne(body_label, v.fp(), e.fp()),
        };
        self.push(back);
        let cond = BabyBear::from_canonical_usize(self.cur_index());
        self.push_to_block(call, AsmInstruction::j(cond));
        self.basic_block();
        let after = BabyBear::from_canonical_usize(self.cur_index());
        self.patch_breaks(brk, after);
    }

    /// Closes a `loop` whose body starts at block `body`.
    fn close_loop(&mut self, body: usize, brk: BabyBear)
        requires
            old(self)@.wf(),
            body < old(self)@.blocks.len(),
            close_loop(body as int, brk, old(self)@) is Some,
        ensures
            Some(final(self)@) == close_loop(body as int, brk, old(self)@),
            final(self)@.wf(),
    {
        self.push(AsmInstruction::j(BabyBear::from_canonical_usize(body)));
        self.basic_block();
        let after = BabyBear::from_canonical_usize(self.cur_index());
        self.patch_breaks(brk, after);
    }

    /// Compiles one DSL instruction.
    fn build_op(&mut self, op: &DslIr)
        requires
            old(self)@.wf(),
            build_op_spec(old(self)@, *op) is Some,
        ensures
            Some(final(self)@) == build_op_spec(old(self)@, *op),
            final(self)@.wf(),
            final(self)@.blocks.len() >= old(self)@.blocks.len(),
        decreases *op,
    {
        let ghost m = self@;
        match op {
            DslIr::IfEq(l, r, t, e) => {
                let lhs = l.fp();
                let rhs = ValueOrConst::Val(r.fp());
                let start = self.cur_index();
                self.basic_block();
                self.build_ops(t);
                if e.len() == 0 {
                    self.close_then(start, lhs, rhs, true);
                } else {
                    let last_then = self.cur_index();
                    self.basic_block();
                    self.build_ops(e);
                    self.close_else(start, last_then, lhs, rhs, true);
                }
            },
            DslIr::IfNe(l, r, t, e) => {
                let lhs = l.fp();
                let rhs = ValueOrConst::Val(r.fp());
                let start = self.cur_index();
                self.basic_block();
                self.build_ops(t);
                if e.len() == 0 {
                    self.close_then(start, lhs, rhs, false);
                } else {
                    let last_then = self.cur_index();
                    self.basic_block();
                    self.build_ops(e);
                    self.close_else(start, last_then, lhs, rhs, false);
                }
            },
            DslIr::IfEqI(l, r, t, e) => {
                let lhs = l.fp();
                let rhs = ValueOrConst::Const(*r);
                let start = self.cur_index();
                self.basic_block();
                self.build_ops(t);
                if e.len() == 0 {
                    self.close_then(start, lhs, rhs, true);
                } else {
                    let last_then = self.cur_index();
                    self.basic_block();
                    self.build_ops(e);
                    self.close_else(start, last_then, lhs, rhs, true);
                }
            },
            DslIr::IfNeI(l, r, t, e) => {
                let lhs = l.fp();
                let rhs = ValueOrConst::Const(*r);
                let start = self.cur_index();
                self.basic_block();
                self.build_ops(t);
                if e.len() == 0 {
                    self.close_then(start, lhs, rhs, false);
                } else {
                    let last_then = self.cur_index();
                    self.basic_block();
                    self.build_ops(e);
                    self.close_else(start, last_then, lhs, rhs, false);
                }
            },
            DslIr::For(start, end, step, v, body) => {
                let set = match start {
                    RVar::Const(c) => AsmInstruction::ImmF(v.fp(), *c),
                    RVar::Val(s) => AsmInstruction::CopyF(v.fp(), s.fp()),
                };
                self.push(set);
                let call = self.cur_index();
                let brk = self.new_break_label();
                self.basic_block();
                let body_start = self.cur_index();
                self.build_ops(body);
                self.close_for(call, body_start, brk, *v, *step, *end);
            },
            DslIr::Loop(body) => {
                let brk = self.new_break_label();
                self.basic_block();
                let body_start = self.cur_index();
                self.build_ops(body);
                self.close_loop(body_start, brk);
            },
            DslIr::Break => {
                match self.break_label {
                    Some(l) => {
                        self.note_break();
                        self.push(AsmInstruction::Break(l));
                    },
                    None => {},
                }
            },
            _ => {
                self.push_lowered(op);
            },
        }
    }

    /// Compiles a sequence of DSL instructions.
    fn build_ops(&mut self, ops: &Vec<DslIr>)
        requires
            old(self)@.wf(),
            build_ops_spec(old(self)@, ops@) is Some,
        ensures
            Some(final(self)@) == build_ops_spec(old(self)@, ops@),
            final(self)@.wf(),
            final(self)@.blocks.len() >= old(self)@.blocks.len(),
        decreases ops@,
    {
        let ghost m0 = self@;
        let mut i: usize = 0;
        while i < ops.len()
            invariant
                i <= ops@.len(),
                self@.wf(),
                build_ops_spec(m0, ops@) is Some,
                build_ops_spec(m0, ops@.take(i as int)) == Some(self@),
                self@.blocks.len() >= m0.blocks.len(),
            decreases ops@.len() - i,
        {
            proof {
                lemma_build_prefix(m0, ops@, i + 1);
                assert(ops@.take(i + 1).drop_last() =~= ops@.take(i as int));
            }
            self.build_op(&ops[i]);
            i = i + 1;
        }
        assert(ops@.take(i as int) =~= ops@);
    }

    /// Builds the operations into assembly instructions, after the prologue on a fresh
    /// compiler.
    pub fn build(&mut self, operations: Vec<DslIr>)
        requires
            old(self)@.wf(),
            build_spec(old(self)@, operations@) is Some,
        ensures
            Some(final(self)@) == build_spec(old(self)@, operations@),
            final(self)@.wf(),
    {
        if self.basic_blocks.len() == 1 {
            let heap_start = BabyBear::from_canonical_u32(HEAP_START_ADDRESS as u32);
            self.push(AsmInstruction::ImmF(HEAP_PTR, heap_start));
            let after_trap = self.trap_label.add(BabyBear::one());
            self.push(AsmInstruction::j(after_trap));
            self.basic_block();
            self.push(AsmInstruction::Trap);
            self.basic_block();
        }
        self.build_ops(&operations);
    }
}

// ---------------------------------------------------------------------------------------------
// Every jump of compiled code lands on a block.
// ---------------------------------------------------------------------------------------------
/// The block label a jump or branch goes to (`Break` placeholders are not jumps yet).
pub open spec fn jump_target(i: AsmInstruction) -> Option<BabyBear> {
    match i {
        AsmInstruction::Jump(_, l) => Some(l),
        AsmInstruction::Bne(l, _, _) => Some(l),
        AsmInstruction::BneI(l, _, _) => Some(l),
        AsmInstruction::Beq(l, _, _) => Some(l),
        AsmInstruction::BeqI(l, _, _) => Some(l),
        AsmInstruction::BneE(l, _, _) => Some(l),
        AsmInstruction::BneEI(l, _, _) => Some(l),
        AsmInstruction::BeqE(l, _, _) => Some(l),
        AsmInstruction::BeqEI(l, _, _) => Some(l),
        _ => None,
    }
}

/// Every jump of `s` targets one of the first `n` blocks.
pub open spec fn targets_below(s: Seq<AsmInstruction>, n: int) -> bool {
    forall|k: int|
        0 <= k < s.len() ==> (#[trigger] jump_target(s[k]) matches Some(t) ==> t.v < n)
}

/// Every jump of the compiled blocks targets an existing block.
pub open spec fn labels_closed(m: CompilerModel) -> bool {
    forall|b: int| 0 <= b < m.blocks.len() ==> targets_below(#[trigger] m.blocks[b], m.blocks.len() as int)
}

proof fn lemma_targets_concat(a: Seq<AsmInstruction>, b: Seq<AsmInstruction>, n: int)
    requires
        targets_below(a, n),
        targets_below(b, n),
    ensures
        targets_below(a + b, n),
{
    assert forall|k: int| 0 <= k < (a + b).len() implies (#[trigger] jump_target((a + b)[k]) matches Some(
        t,
    ) ==> t.v < n) by {
        if k < a.len() {
            assert((a + b)[k] == a[k]);
        } else {
            assert((a + b)[k] == b[k - a.len()]);
        }
    }
}

proof fn lemma_closed_push_to(m: CompilerModel, b: int, i: AsmInstruction)
    requires
        labels_closed(m),
        0 <= b < m.blocks.len(),
        jump_target(i) matches Some(t) ==> t.v < m.blocks.len(),
    ensures
        labels_closed(push_to(m, b, i)),
{
    let m2 = push_to(m, b, i);
    assert forall|c: int| 0 <= c < m2.blocks.len() implies targets_below(
        #[trigger] m2.blocks[c],
        m2.blocks.len() as int,
    ) by {
        if c == b {
            assert(targets_below(m.blocks[b], m.blocks.len() as int));
            assert forall|k: int| 0 <= k < m2.blocks[c].len() implies (#[trigger] jump_target(
                m2.blocks[c][k],
            ) matches Some(t) ==> t.v < m2.blocks.len()) by {
                if k < m.blocks[b].len() {
                    assert(m2.blocks[c][k] == m.blocks[b][k]);
                }
            }
        }
    }
}

proof fn lemma_closed_push_last(m: CompilerModel, s: Seq<AsmInstruction>)
    requires
        labels_closed(m),
        m.blocks.len() >= 1,
        targets_below(s, m.blocks.len() as int),
    ensures
        labels_closed(push_last(m, s)),
{
    let m2 = push_last(m, s);
    assert forall|c: int| 0 <= c < m2.blocks.len() implies targets_below(
        #[trigger] m2.blocks[c],
        m2.blocks.len() as int,
    ) by {
        if c == cur(m) {
            assert(targets_below(m.blocks[c], m.blocks.len() as int));
            lemma_targets_concat(m.blocks[c], s, m.blocks.len() as int);
        }
    }
}

proof fn lemma_closed_new_block(m: CompilerModel)
    requires
        labels_closed(m),
    ensures
        labels_closed(new_block(m)),
{
    let m2 = new_block(m);
    assert forall|c: int| 0 <= c < m2.blocks.len() implies targets_below(
        #[trigger] m2.blocks[c],
        m2.blocks.len() as int,
    ) by {
        if c < m.blocks.len() {
            assert(targets_below(m.blocks[c], m.blocks.len() as int));
        }
    }
}

proof fn lemma_closed_patch(m: CompilerModel, brk: BabyBear, target: BabyBear)
    requires
        labels_closed(m),
        target.v < m.blocks.len(),
    ensures
        labels_closed(patch_breaks(m, brk, target)),
{
    let m2 = patch_breaks(m, brk, target);
    assert forall|c: int| 0 <= c < m2.blocks.len() implies targets_below(
        #[trigger] m2.blocks[c],
        m2.blocks.len() as int,
    ) by {
        assert(targets_below(m.blocks[c], m.blocks.len() as int));
        assert forall|k: int| 0 <= k < m2.blocks[c].len() implies (#[trigger] jump_target(
            m2.blocks[c][k],
        ) matches Some(t) ==> t.v < m2.blocks.len()) by {
            assert(jump_target(m.blocks[c][k]) matches Some(t) ==> t.v < m.blocks.len());
        }
    }
}

#[verifier::spinoff_prover]
#[verifier::rlimit(50)]
proof fn lemma_lower_targets(op: DslIr, word_size: usize, n: int)
    requires
        n >= 2,
    ensures
        targets_below(lower_spec(op, word_size), n),
{
    let s = lower_spec(op, word_size);
    assert forall|k: int| 0 <= k < s.len() implies (#[trigger] jump_target(s[k]) matches Some(t)
        ==> t.v < n) by {
        match op {
            DslIr::LoadV(..) | DslIr::LoadF(..) | DslIr::StoreV(..) | DslIr::StoreF(..)
            | DslIr::LoadE(..) | DslIr::StoreE(..) | DslIr::StoreHintWord(..) => {},
            _ => {},
        }
    }
}

proof fn lemma_closed_if(
    m: CompilerModel,
    lhs: i32,
    rhs: ValueOrConst,
    is_eq: bool,
    then_result: Option<CompilerModel>,
    else_result: spec_fn(CompilerModel) -> Option<CompilerModel>,
    has_else: bool,
)
    requires
        labels_closed(m),
        m.blocks.len() >= 1,
        then_result matches Some(mt) ==> labels_closed(mt) && mt.blocks.len() > m.blocks.len(),
        then_result matches Some(mt) ==> (else_result(mt) matches Some(me) ==> labels_closed(me)
            && me.blocks.len() > mt.blocks.len()),
        compile_if_spec(m, lhs, rhs, is_eq, then_result, else_result, has_else) is Some,
    ensures
        labels_closed(compile_if_spec(m, lhs, rhs, is_eq, then_result, else_result, has_else)->0),
        compile_if_spec(m, lhs, rhs, is_eq, then_result, else_result, has_else)->0.blocks.len()
            > m.blocks.len(),
{
    let mt = then_result->0;
    if !has_else {
        lemma_closed_new_block(mt);
        lemma_closed_push_to(
            new_block(mt),
            cur(m),
            branch_spec(lhs, rhs, is_eq, label(mt.blocks.len() as int)),
        );
    } else {
        let me = else_result(mt)->0;
        let m5 = push_to(me, cur(m), branch_spec(lhs, rhs, is_eq, label(cur(mt) + 1)));
        lemma_closed_push_to(me, cur(m), branch_spec(lhs, rhs, is_eq, label(cur(mt) + 1)));
        lemma_closed_new_block(m5);
        lemma_closed_push_to(new_block(m5), cur(mt), jump_spec(label(cur(new_block(m5)))));
    }
}

/// Compiling an instruction keeps every jump on an existing block.
pub proof fn lemma_build_op_closed(m: CompilerModel, op: DslIr)
    requires
        labels_closed(m),
        m.blocks.len() >= 2,
        build_op_spec(m, op) is Some,
    ensures
        labels_closed(build_op_spec(m, op)->0),
        build_op_spec(m, op)->0.blocks.len() >= m.blocks.len(),
    decreases op,
{
    match op {
        DslIr::IfEq(l, r, t, e) => {
            lemma_closed_new_block(m);
            lemma_build_ops_closed(new_block(m), t@);
            if let Some(mt) = build_ops_spec(new_block(m), t@) {
                lemma_closed_new_block(mt);
                if build_ops_spec(new_block(mt), e@) is Some {
                    lemma_build_ops_closed(new_block(mt), e@);
                }
            }
            lemma_closed_if(
                m,
                vfp(l),
                ValueOrConst::Val(vfp(r)),
                true,
                build_ops_spec(new_block(m), t@),
                |mt: CompilerModel| build_ops_spec(new_block(mt), e@),
                e@.len() > 0,
            );
        },
        DslIr::IfNe(l, r, t, e) => {
            lemma_closed_new_block(m);
            lemma_build_ops_closed(new_block(m), t@);
            if let Some(mt) = build_ops_spec(new_block(m), t@) {
                lemma_closed_new_block(mt);
                if build_ops_spec(new_block(mt), e@) is Some {
                    lemma_build_ops_closed(new_block(mt), e@);
                }
            }
            lemma_closed_if(
                m,
                vfp(l),
                ValueOrConst::Val(vfp(r)),
                false,
                build_ops_spec(new_block(m), t@),
                |mt: CompilerModel| build_ops_spec(new_block(mt), e@),
                e@.len() > 0,
            );
        },
        DslIr::IfEqI(l, r, t, e) => {
            lemma_closed_new_block(m);
            lemma_build_ops_closed(new_block(m), t@);
            if let Some(mt) = build_ops_spec(new_block(m), t@) {
                lemma_closed_new_block(mt);
                if build_ops_spec(new_block(mt), e@) is Some {
                    lemma_build_ops_closed(new_block(mt), e@);
                }
            }
            lemma_closed_if(
                m,
                vfp(l),
                ValueOrConst::Const(r),
                true,
                build_ops_spec(new_block(m), t@),
                |mt: CompilerModel| build_ops_spec(new_block(mt), e@),
                e@.len() > 0,
            );
        },
        DslIr::IfNeI(l, r, t, e) => {
            lemma_closed_new_block(m);
            lemma_build_ops_closed(new_block(m), t@);
            if let Some(mt) = build_ops_spec(new_block(m), t@) {
                lemma_closed_new_block(mt);
                if build_ops_spec(new_block(mt), e@) is Some {
                    lemma_build_ops_closed(new_block(mt), e@);
                }
            }
            lemma_closed_if(
                m,
                vfp(l),
                ValueOrConst::Const(r),
                false,
                build_ops_spec(new_block(m), t@),
                |mt: CompilerModel| build_ops_spec(new_block(mt), e@),
                e@.len() > 0,
            );
        },
        DslIr::For(start, end, step, v, body) => {
            let m1 = push_to(m, cur(m), set_loop_var_spec(start, v));
            lemma_closed_push_to(m, cur(m), set_loop_var_spec(start, v));
            let m3 = new_block(open_loop(m1));
            lemma_closed_new_block(open_loop(m1));
            lemma_build_ops_closed(m3, body@);
            let mb = build_ops_spec(m3, body@)->0;
            let m5 = push_to(mb, cur(mb), AsmInstruction::AddFI(vfp(v), vfp(v), step));
            lemma_closed_push_to(mb, cur(mb), AsmInstruction::AddFI(vfp(v), vfp(v), step));
            let m6 = new_block(m5);
            lemma_closed_new_block(m5);
            let m7 = push_to(m6, cur(m6), loop_back_spec(cur(m3), v, end));
            lemma_closed_push_to(m6, cur(m6), loop_back_spec(cur(m3), v, end));
            let m8 = push_to(m7, cur(m), jump_spec(label(cur(m7))));
            lemma_closed_push_to(m7, cur(m), jump_spec(label(cur(m7))));
            let m9 = new_block(m8);
            lemma_closed_new_block(m8);
            lemma_closed_patch(m9, label(m.break_counter as int), label(cur(m9)));
        },
        DslIr::Loop(body) => {
            let m2 = new_block(open_loop(m));
            lemma_closed_new_block(open_loop(m));
            lemma_build_ops_closed(m2, body@);
            let mb = build_ops_spec(m2, body@)->0;
            let m4 = push_to(mb, cur(mb), jump_spec(label(cur(m2))));
            lemma_closed_push_to(mb, cur(mb), jump_spec(label(cur(m2))));
            let m5 = new_block(m4);
            lemma_closed_new_block(m4);
            lemma_closed_patch(m5, label(m.break_counter as int), label(cur(m5)));
        },
        DslIr::Break => {
            lemma_closed_push_to(note_break(m), cur(m), AsmInstruction::Break(m.break_label->0));
        },
        _ => {
            lemma_lower_targets(op, m.word_size, m.blocks.len() as int);
            lemma_closed_push_last(m, lower_spec(op, m.word_size));
        },
    }
}

/// Compiling a sequence keeps every jump on an existing block.
pub proof fn lemma_build_ops_closed(m: CompilerModel, ops: Seq<DslIr>)
    requires
        labels_closed(m),
        m.blocks.len() >= 2,
        build_ops_spec(m, ops) is Some,
    ensures
        labels_closed(build_ops_spec(m, ops)->0),
        build_ops_spec(m, ops)->0.blocks.len() >= m.blocks.len(),
    decreases ops,
{
    if ops.len() > 0 {
        lemma_build_ops_closed(m, ops.drop_last());
        lemma_build_op_closed(build_ops_spec(m, ops.drop_last())->0, ops.last());
    }
}

/// On any compiler state whose jumps land on existing blocks (a fresh compiler in
/// particular), compiling a program keeps every jump and branch on an existing block: no
/// label of the compiled code is dangling.
pub proof fn lemma_build_labels_closed(m: CompilerModel, ops: Seq<DslIr>)
    requires
        m.wf(),
        labels_closed(m),
        build_spec(m, ops) is Some,
    ensures
        labels_closed(build_spec(m, ops)->0),
{
    let p = prologue_spec(m);
    if m.blocks.len() == 1 {
        let b0 = m.blocks[0].push(AsmInstruction::ImmF(HEAP_PTR, label(HEAP_START_ADDRESS as int))).push(
            jump_spec(label(2)),
        );
        assert(p.blocks =~= seq![b0, seq![AsmInstruction::Trap], Seq::empty()]);
        assert(targets_below(m.blocks[0], 1));
        assert forall|c: int| 0 <= c < p.blocks.len() implies targets_below(
            #[trigger] p.blocks[c],
            p.blocks.len() as int,
        ) by {
            if c == 0 {
                assert forall|k: int| 0 <= k < b0.len() implies (#[trigger] jump_target(b0[k]) matches Some(
                    t,
                ) ==> t.v < 3) by {
                    if k < m.blocks[0].len() {
                        assert(b0[k] == m.blocks[0][k]);
                    }
                }
            }
        }
    }
    lemma_build_ops_closed(p, ops);
}

/// The concatenated lowering of straight-line instructions.
pub open spec fn lower_all(ops: Seq<DslIr>, word_size: usize) -> Seq<AsmInstruction>
    decreases ops.len(),
{
    if ops.len() == 0 {
        Seq::empty()
    } else {
        lower_all(ops.drop_last(), word_size) + lower_spec(ops.last(), word_size)
    }
}

/// A program of straight-line instructions opens no block: it appends to the current block
/// exactly the lowering of each instruction, in order.
pub proof fn lemma_build_straight_line(m: CompilerModel, ops: Seq<DslIr>)
    requires
        m.blocks.len() >= 1,
        forall|i: int| 0 <= i < ops.len() ==> lower_ok(#[trigger] ops[i], m.word_size),
    ensures
        build_ops_spec(m, ops) == Some(push_last(m, lower_all(ops, m.word_size))),
    decreases ops.len(),
{
    if ops.len() == 0 {
        assert(m.blocks.update(cur(m), m.blocks[cur(m)] + Seq::empty()) =~= m.blocks);
    } else {
        let init = ops.drop_last();
        assert forall|i: int| 0 <= i < init.len() implies lower_ok(#[trigger] init[i], m.word_size) by {
            assert(init[i] == ops[i]);
        }
        lemma_build_straight_line(m, init);
        assert(lower_ok(ops[ops.len() - 1], m.word_size));
        let m1 = push_last(m, lower_all(init, m.word_size));
        assert(build_op_spec(m1, ops.last()) == Some(push_last(m1, lower_spec(ops.last(), m.word_size))));
        let b = m.blocks[cur(m)];
        assert(lower_all(ops, m.word_size) == lower_all(init, m.word_size) + lower_spec(
            ops.last(),
            m.word_size,
        ));
        assert((b + lower_all(init, m.word_size)) + lower_spec(ops.last(), m.word_size) =~= b
            + lower_all(ops, m.word_size));
        assert(push_last(m1, lower_spec(ops.last(), m.word_size)).blocks =~= push_last(
            m,
            lower_all(ops, m.word_size),
        ).blocks);
    }
}

/// Resolving breaks leaves every instruction that is not a break as it was.
proof fn lemma_patch_keeps(m: CompilerModel, brk: BabyBear, target: BabyBear, bi: int, k: int)
    requires
        0 <= bi < m.blocks.len(),
        0 <= k < m.blocks[bi].len(),
        !(m.blocks[bi][k] is Break),
    ensures
        patch_breaks(m, brk, target).blocks.len() == m.blocks.len(),
        patch_breaks(m, brk, target).blocks[bi].len() == m.blocks[bi].len(),
        patch_breaks(m, brk, target).blocks[bi][k] == m.blocks[bi][k],
{
}

/// The value a loop runs up to: the constant, or the value of the variable on the frame.
pub open spec fn loop_end_value(end: RVar, f: spec_fn(int) -> int) -> int {
    match end {
        RVar::Const(c) => modp(c.val()),
        RVar::Val(e) => modp(f(vfp(e) as int)),
    }
}

/// The control flow of a compiled `for` loop, on any frame: the body's last block ends by adding
/// the step to the loop variable; the block after the body is the loop check, a single branch
/// back to the body's first block that is taken exactly while the loop variable differs from
/// the end; and the block where the loop starts ends with a jump to the check, so that a loop
/// whose start is its end runs its body no time.
pub proof fn lemma_for_loop_control(
    call: int,
    body: int,
    brk: BabyBear,
    mb: CompilerModel,
    v: Var,
    step: BabyBear,
    end: RVar,
    f: spec_fn(int) -> int,
)
    requires
        close_for(call, body, brk, mb, v, step, end) is Some,
        0 <= call < body < mb.blocks.len(),
    ensures
        ({
            let m = close_for(call, body, brk, mb, v, step, end)->Some_0;
            let last = mb.blocks.len() - 1;
            let check = mb.blocks.len() as int;
            &&& m.blocks.len() == check + 2
            &&& m.blocks[last].len() >= 1
            &&& exec_field(f, m.blocks[last].last()) == Some(
                frame_set(f, vfp(v) as int, modp(f(vfp(v) as int) + step.val())),
            )
            &&& m.blocks[check].len() == 1
            &&& branch_effect(m.blocks[check][0], f) == Some(
                (modp(f(vfp(v) as int)) != loop_end_value(end, f), label(body)),
            )
            &&& m.blocks[call].len() >= 1
            &&& branch_effect(m.blocks[call].last(), f) == Some((true, label(check)))
        }),
{
    let last = mb.blocks.len() - 1;
    let check = mb.blocks.len() as int;
    let m5 = push_to(mb, cur(mb), AsmInstruction::AddFI(vfp(v), vfp(v), step));
    let m6 = new_block(m5);
    let m7 = push_to(m6, cur(m6), loop_back_spec(body, v, end));
    let m8 = push_to(m7, call, jump_spec(label(cur(m7))));
    let m9 = new_block(m8);
    assert(cur(m6) == check && cur(m7) == check);
    assert(m9.blocks.len() == check + 2);
    assert(m9.blocks[last] == mb.blocks[last].push(AsmInstruction::AddFI(vfp(v), vfp(v), step)));
    assert(m9.blocks[check] == seq![loop_back_spec(body, v, end)]);
    assert(m9.blocks[call] == mb.blocks[call].push(jump_spec(label(check))));
    let t = label(cur(m9));
    lemma_patch_keeps(m9, brk, t, last, m9.blocks[last].len() - 1);
    lemma_patch_keeps(m9, brk, t, check, 0);
    lemma_patch_keeps(m9, brk, t, call, m9.blocks[call].len() - 1);
}

/// A compiled `for v in start..end step s { body }`, on any frame: the block where the loop
/// starts sets the loop variable to the start and then jumps to the loop check; the body's last
/// block adds the step to the loop variable; and the loop check, the block after the body, is a
/// single branch back to the body's first block that is taken exactly while the loop variable
/// differs from the end.  So the body runs first with `v = start` (unless `start` is the end),
/// and again with `v + step` until `v` reaches `end`.
pub proof fn lemma_for_compiles_to_loop(
    m: CompilerModel,
    start: RVar,
    end: RVar,
    step: BabyBear,
    v: Var,
    body: Vec<DslIr>,
    f: spec_fn(int) -> int,
)
    requires
        labels_closed(m),
        m.blocks.len() >= 2,
        build_op_spec(m, DslIr::For(start, end, step, v, body)) is Some,
    ensures
        ({
            let r = build_op_spec(m, DslIr::For(start, end, step, v, body))->Some_0;
            let call = cur(m);
            let first = m.blocks.len() as int;
            let check = r.blocks.len() - 2;
            let last = check - 1;
            let start_value = match start {
                RVar::Const(c) => modp(c.val()),
                RVar::Val(x) => modp(f(vfp(x) as int)),
            };
            &&& first <= last
            &&& r.blocks[call].len() >= 2
            &&& exec_field(f, r.blocks[call][r.blocks[call].len() - 2]) == Some(
                frame_set(f, vfp(v) as int, start_value),
            )
            &&& branch_effect(r.blocks[call].last(), f) == Some((true, label(check)))
            &&& r.blocks[last].len() >= 1
            &&& exec_field(f, r.blocks[last].last()) == Some(
                frame_set(f, vfp(v) as int, modp(f(vfp(v) as int) + step.val())),
            )
            &&& r.blocks[check].len() == 1
            &&& branch_effect(r.blocks[check][0], f) == Some(
                (modp(f(vfp(v) as int)) != loop_end_value(end, f), label(first)),
            )
        }),
{
    let m1 = push_to(m, cur(m), set_loop_var_spec(start, v));
    lemma_closed_push_to(m, cur(m), set_loop_var_spec(start, v));
    let m3 = new_block(open_loop(m1));
    lemma_closed_new_block(open_loop(m1));
    lemma_build_ops_closed(m3, body@);
    let mb = build_ops_spec(m3, body@)->0;
    assert(cur(m3) == m.blocks.len());
    let brk = label(m.break_counter as int);
    lemma_for_loop_control(cur(m), cur(m3), brk, mb, v, step, end, f);
    // the loop variable's start, set just before the jump to the check
    let call = cur(m);
    let k0 = m.blocks[call].len() as int;
    assert(m3.blocks[call] == m.blocks[call].push(set_loop_var_spec(start, v)));
    lemma_build_ops_frozen(m3, body@);
    assert(mb.blocks[call][k0] == set_loop_var_spec(start, v));
    assert(mb.blocks[call].len() == k0 + 1);
    let m5 = push_to(mb, cur(mb), AsmInstruction::AddFI(vfp(v), vfp(v), step));
    let m6 = new_block(m5);
    let m7 = push_to(m6, cur(m6), loop_back_spec(cur(m3), v, end));
    let m8 = push_to(m7, call, jump_spec(label(cur(m7))));
    let m9 = new_block(m8);
    assert(m9.blocks[call] == mb.blocks[call].push(jump_spec(label(cur(m7)))));
    lemma_patch_keeps(m9, brk, label(cur(m9)), call, k0);
}

/// The conditional jump of a compiled `if`, on any frame: with a base-field operand it jumps to
/// `block` (the else part, or the code after the `if`) exactly when the condition does not
/// hold: when the operands differ for an equality test, when they are equal for an inequality
/// test.
pub proof fn lemma_if_branch_skips_when_condition_fails(
    lhs: i32,
    rhs: ValueOrConst,
    is_eq: bool,
    block: BabyBear,
    f: spec_fn(int) -> int,
)
    requires
        rhs is Const || rhs is Val,
    ensures
        ({
            let r = match rhs {
                ValueOrConst::Const(c) => modp(c.val()),
                ValueOrConst::Val(x) => modp(f(x as int)),
                _ => 0,
            };
            let holds = if is_eq {
                modp(f(lhs as int)) == r
            } else {
                modp(f(lhs as int)) != r
            };
            branch_effect(branch_spec(lhs, rhs, is_eq, block), f) == Some((!holds, block))
        }),
{
}

/// The condition of a compiled `if` on a frame, for a base-field right operand.
pub open spec fn if_condition(lhs: i32, rhs: ValueOrConst, is_eq: bool, f: spec_fn(int) -> int) -> bool {
    let r = match rhs {
        ValueOrConst::Const(c) => modp(c.val()),
        ValueOrConst::Val(x) => modp(f(x as int)),
        _ => 0,
    };
    if is_eq {
        modp(f(lhs as int)) == r
    } else {
        modp(f(lhs as int)) != r
    }
}

/// A compiled `if` without `else`, on any frame: the block where it starts ends with a branch to
/// the block after the then-blocks, taken exactly when the condition fails; otherwise control
/// falls through into the then-blocks.
pub proof fn lemma_if_then_control(
    start: int,
    mt: CompilerModel,
    lhs: i32,
    rhs: ValueOrConst,
    is_eq: bool,
    f: spec_fn(int) -> int,
)
    requires
        close_then(start, mt, lhs, rhs, is_eq) is Some,
        0 <= start < mt.blocks.len(),
        rhs is Const || rhs is Val,
    ensures
        ({
            let m = close_then(start, mt, lhs, rhs, is_eq)->Some_0;
            let after = mt.blocks.len() as int;
            &&& m.blocks.len() == after + 1
            &&& m.blocks[start].len() >= 1
            &&& branch_effect(m.blocks[start].last(), f) == Some(
                (!if_condition(lhs, rhs, is_eq, f), label(after)),
            )
        }),
{
    lemma_if_branch_skips_when_condition_fails(lhs, rhs, is_eq, label(mt.blocks.len() as int), f);
}

/// A compiled `if` with `else`, on any frame: the block where it starts ends with a branch to
/// the first else-block, taken exactly when the condition fails; and the last then-block ends
/// with a jump over the else-blocks to the block after them.
pub proof fn lemma_if_else_control(
    start: int,
    last_then: int,
    me: CompilerModel,
    lhs: i32,
    rhs: ValueOrConst,
    is_eq: bool,
    f: spec_fn(int) -> int,
)
    requires
        close_else(start, last_then, me, lhs, rhs, is_eq) is Some,
        0 <= start < last_then < me.blocks.len(),
        rhs is Const || rhs is Val,
    ensures
        ({
            let m = close_else(start, last_then, me, lhs, rhs, is_eq)->Some_0;
            let after = me.blocks.len() as int;
            &&& m.blocks.len() == after + 1
            &&& m.blocks[start].len() >= 1
            &&& branch_effect(m.blocks[start].last(), f) == Some(
                (!if_condition(lhs, rhs, is_eq, f), label(last_then + 1)),
            )
            &&& m.blocks[last_then].len() >= 1
            &&& branch_effect(m.blocks[last_then].last(), f) == Some((true, label(after)))
        }),
{
    lemma_if_branch_skips_when_condition_fails(lhs, rhs, is_eq, label(last_then + 1), f);
    let m5 = push_to(me, start, branch_spec(lhs, rhs, is_eq, label(last_then + 1)));
    let m6 = new_block(m5);
    assert(cur(m6) == me.blocks.len());
}

/// A compiled `loop`, on any frame: the body's last block ends with a jump back to the body's
/// first block, and every `break` of the loop, in the blocks recorded as holding one, becomes a
/// jump to the block after the loop.
pub proof fn lemma_loop_control(body: int, brk: BabyBear, mb: CompilerModel, f: spec_fn(int) -> int)
    requires
        close_loop(body, brk, mb) is Some,
        0 <= body < mb.blocks.len(),
    ensures
        ({
            let m = close_loop(body, brk, mb)->Some_0;
            let last = mb.blocks.len() - 1;
            let after = mb.blocks.len() as int;
            &&& m.blocks.len() == after + 1
            &&& m.blocks[last].len() >= 1
            &&& branch_effect(m.blocks[last].last(), f) == Some((true, label(body)))
            &&& forall|b: int, k: int|
                0 <= b < mb.blocks.len() && 0 <= k < mb.blocks[b].len() && mb.contains_break.contains(
                    b as usize,
                ) && mb.blocks[b][k] == AsmInstruction::Break(brk) ==> branch_effect(
                    #[trigger] m.blocks[b][k],
                    f,
                ) == Some((true, label(after)))
        }),
{
    let m4 = push_to(mb, cur(mb), jump_spec(label(body)));
    let m5 = new_block(m4);
    let last = mb.blocks.len() - 1;
    lemma_patch_keeps(m5, brk, label(cur(m5)), last, m5.blocks[last].len() - 1);
    assert forall|b: int, k: int|
        0 <= b < mb.blocks.len() && 0 <= k < mb.blocks[b].len() && mb.contains_break.contains(
            b as usize,
        ) && mb.blocks[b][k] == AsmInstruction::Break(brk) implies branch_effect(
        #[trigger] close_loop(body, brk, mb)->Some_0.blocks[b][k],
        f,
    ) == Some((true, label(mb.blocks.len() as int))) by {
        assert(m5.blocks[b][k] == mb.blocks[b][k]);
    }
}

/// The blocks before `n` keep their lengths and every instruction that is not a break, and no
/// block is lost.
pub open spec fn frozen_below(m: CompilerModel, m2: CompilerModel, n: int) -> bool {
    &&& m2.blocks.len() >= m.blocks.len()
    &&& forall|b: int|
        0 <= b < n && b < m.blocks.len() ==> (#[trigger] m2.blocks[b]).len() == m.blocks[b].len()
    &&& forall|b: int, k: int|
        0 <= b < n && b < m.blocks.len() && 0 <= k < m.blocks[b].len() && !(m.blocks[b][k] is Break)
            ==> #[trigger] m2.blocks[b][k] == m.blocks[b][k]
}

proof fn lemma_frozen_trans(m1: CompilerModel, m2: CompilerModel, m3: CompilerModel, n: int, n2: int)
    requires
        frozen_below(m1, m2, n),
        frozen_below(m2, m3, n2),
        n <= n2,
    ensures
        frozen_below(m1, m3, n),
{
    assert forall|b: int, k: int|
        0 <= b < n && b < m1.blocks.len() && 0 <= k < m1.blocks[b].len() && !(m1.blocks[b][k] is Break)
            implies #[trigger] m3.blocks[b][k] == m1.blocks[b][k] by {
        assert(m2.blocks[b][k] == m1.blocks[b][k]);
        assert(m2.blocks[b].len() == m1.blocks[b].len());
    }
}

proof fn lemma_frozen_refl(m: CompilerModel, n: int)
    ensures
        frozen_below(m, m, n),
{
}

proof fn lemma_frozen_push(m: CompilerModel, b0: int, i: AsmInstruction, n: int)
    requires
        0 <= b0 < m.blocks.len(),
        n <= b0,
    ensures
        frozen_below(m, push_to(m, b0, i), n),
{
}

proof fn lemma_frozen_new_block(m: CompilerModel, n: int)
    ensures
        frozen_below(m, new_block(m), n),
{
}

proof fn lemma_frozen_patch(m: CompilerModel, brk: BabyBear, t: BabyBear, n: int)
    ensures
        frozen_below(m, patch_breaks(m, brk, t), n),
{
}

/// Compiling an instruction changes no block before the current one but by resolving breaks,
/// and loses no block.
proof fn lemma_build_op_frozen(m: CompilerModel, op: DslIr)
    requires
        m.blocks.len() >= 1,
        build_op_spec(m, op) is Some,
    ensures
        frozen_below(m, build_op_spec(m, op)->Some_0, cur(m)),
    decreases op,
{
    let n = cur(m);
    match op {
        DslIr::IfEq(l, r, t, e) => {
            let lhs = vfp(l);
            let rhs = ValueOrConst::Val(vfp(r));
            let is_eq = true;
            let m0 = new_block(m);
            lemma_frozen_new_block(m, n);
            lemma_build_ops_frozen(m0, t@);
            let mt = build_ops_spec(m0, t@)->Some_0;
            lemma_frozen_trans(m, m0, mt, n, cur(m0));
            if e@.len() == 0 {
                let m1 = new_block(mt);
                lemma_frozen_new_block(mt, n);
                let br = branch_spec(lhs, rhs, is_eq, label(mt.blocks.len() as int));
                lemma_frozen_push(m1, n, br, n);
                lemma_frozen_trans(m, mt, m1, n, n);
                lemma_frozen_trans(m, m1, push_to(m1, n, br), n, n);
            } else {
                let m2 = new_block(mt);
                lemma_frozen_new_block(mt, n);
                lemma_build_ops_frozen(m2, e@);
                let me = build_ops_spec(m2, e@)->Some_0;
                lemma_frozen_trans(m, mt, m2, n, n);
                lemma_frozen_trans(m, m2, me, n, cur(m2));
                let br = branch_spec(lhs, rhs, is_eq, label(cur(mt) + 1));
                let m5 = push_to(me, n, br);
                lemma_frozen_push(me, n, br, n);
                let m6 = new_block(m5);
                lemma_frozen_new_block(m5, n);
                lemma_frozen_push(m6, cur(mt), jump_spec(label(cur(m6))), n);
                lemma_frozen_trans(m, me, m5, n, n);
                lemma_frozen_trans(m, m5, m6, n, n);
                lemma_frozen_trans(m, m6, push_to(m6, cur(mt), jump_spec(label(cur(m6)))), n, n);
            }
        },
        DslIr::IfNe(l, r, t, e) => {
            let lhs = vfp(l);
            let rhs = ValueOrConst::Val(vfp(r));
            let is_eq = false;
            let m0 = new_block(m);
            lemma_frozen_new_block(m, n);
            lemma_build_ops_frozen(m0, t@);
            let mt = build_ops_spec(m0, t@)->Some_0;
            lemma_frozen_trans(m, m0, mt, n, cur(m0));
            if e@.len() == 0 {
                let m1 = new_block(mt);
                lemma_frozen_new_block(mt, n);
                let br = branch_spec(lhs, rhs, is_eq, label(mt.blocks.len() as int));
                lemma_frozen_push(m1, n, br, n);
                lemma_frozen_trans(m, mt, m1, n, n);
                lemma_frozen_trans(m, m1, push_to(m1, n, br), n, n);
            } else {
                let m2 = new_block(mt);
                lemma_frozen_new_block(mt, n);
                lemma_build_ops_frozen(m2, e@);
                let me = build_ops_spec(m2, e@)->Some_0;
                lemma_frozen_trans(m, mt, m2, n, n);
                lemma_frozen_trans(m, m2, me, n, cur(m2));
                let br = branch_spec(lhs, rhs, is_eq, label(cur(mt) + 1));
                let m5 = push_to(me, n, br);
                lemma_frozen_push(me, n, br, n);
                let m6 = new_block(m5);
                lemma_frozen_new_block(m5, n);
                lemma_frozen_push(m6, cur(mt), jump_spec(label(cur(m6))), n);
                lemma_frozen_trans(m, me, m5, n, n);
                lemma_frozen_trans(m, m5, m6, n, n);
                lemma_frozen_trans(m, m6, push_to(m6, cur(mt), jump_spec(label(cur(m6)))), n, n);
            }
        },
        DslIr::IfEqI(l, r, t, e) => {
            let lhs = vfp(l);
            let rhs = ValueOrConst::Const(r);
            let is_eq = true;
            let m0 = new_block(m);
            lemma_frozen_new_block(m, n);
            lemma_build_ops_frozen(m0, t@);
            let mt = build_ops_spec(m0, t@)->Some_0;
            lemma_frozen_trans(m, m0, mt, n, cur(m0));
            if e@.len() == 0 {
                let m1 = new_block(mt);
                lemma_frozen_new_block(mt, n);
                let br = branch_spec(lhs, rhs, is_eq, label(mt.blocks.len() as int));
                lemma_frozen_push(m1, n, br, n);
                lemma_frozen_trans(m, mt, m1, n, n);
                lemma_frozen_trans(m, m1, push_to(m1, n, br), n, n);
            } else {
                let m2 = new_block(mt);
                lemma_frozen_new_block(mt, n);
                lemma_build_ops_frozen(m2, e@);
                let me = build_ops_spec(m2, e@)->Some_0;
                lemma_frozen_trans(m, mt, m2, n, n);
                lemma_frozen_trans(m, m2, me, n, cur(m2));
                let br = branch_spec(lhs, rhs, is_eq, label(cur(mt) + 1));
                let m5 = push_to(me, n, br);
                lemma_frozen_push(me, n, br, n);
                let m6 = new_block(m5);
                lemma_frozen_new_block(m5, n);
                lemma_frozen_push(m6, cur(mt), jump_spec(label(cur(m6))), n);
                lemma_frozen_trans(m, me, m5, n, n);
                lemma_frozen_trans(m, m5, m6, n, n);
                lemma_frozen_trans(m, m6, push_to(m6, cur(mt), jump_spec(label(cur(m6)))), n, n);
            }
        },
        DslIr::IfNeI(l, r, t, e) => {
            let lhs = vfp(l);
            let rhs = ValueOrConst::Const(r);
            let is_eq = false;
            let m0 = new_block(m);
            lemma_frozen_new_block(m, n);
            lemma_build_ops_frozen(m0, t@);
            let mt = build_ops_spec(m0, t@)->Some_0;
            lemma_frozen_trans(m, m0, mt, n, cur(m0));
            if e@.len() == 0 {
                let m1 = new_block(mt);
                lemma_frozen_new_block(mt, n);
                let br = branch_spec(lhs, rhs, is_eq, label(mt.blocks.len() as int));
                lemma_frozen_push(m1, n, br, n);
                lemma_frozen_trans(m, mt, m1, n, n);
                lemma_frozen_trans(m, m1, push_to(m1, n, br), n, n);
            } else {
                let m2 = new_block(mt);
                lemma_frozen_new_block(mt, n);
                lemma_build_ops_frozen(m2, e@);
                let me = build_ops_spec(m2, e@)->Some_0;
                lemma_frozen_trans(m, mt, m2, n, n);
                lemma_frozen_trans(m, m2, me, n, cur(m2));
                let br = branch_spec(lhs, rhs, is_eq, label(cur(mt) + 1));
                let m5 = push_to(me, n, br);
                lemma_frozen_push(me, n, br, n);
                let m6 = new_block(m5);
                lemma_frozen_new_block(m5, n);
                lemma_frozen_push(m6, cur(mt), jump_spec(label(cur(m6))), n);
                lemma_frozen_trans(m, me, m5, n, n);
                lemma_frozen_trans(m, m5, m6, n, n);
                lemma_frozen_trans(m, m6, push_to(m6, cur(mt), jump_spec(label(cur(m6)))), n, n);
            }
        },
        DslIr::For(start, end, step, v, body) => {
            let m1 = push_to(m, cur(m), set_loop_var_spec(start, v));
            let m3 = new_block(open_loop(m1));
            lemma_frozen_push(m, cur(m), set_loop_var_spec(start, v), n);
            lemma_frozen_new_block(open_loop(m1), n);
            lemma_frozen_trans(m, m1, m3, n, n);
            lemma_build_ops_frozen(m3, body@);
            let mb = build_ops_spec(m3, body@)->Some_0;
            lemma_frozen_trans(m, m3, mb, n, cur(m3));
            let m5 = push_to(mb, cur(mb), AsmInstruction::AddFI(vfp(v), vfp(v), step));
            lemma_frozen_push(mb, cur(mb), AsmInstruction::AddFI(vfp(v), vfp(v), step), n);
            let m6 = new_block(m5);
            lemma_frozen_new_block(m5, n);
            let m7 = push_to(m6, cur(m6), loop_back_spec(cur(m3), v, end));
            lemma_frozen_push(m6, cur(m6), loop_back_spec(cur(m3), v, end), n);
            let m8 = push_to(m7, cur(m), jump_spec(label(cur(m7))));
            lemma_frozen_push(m7, cur(m), jump_spec(label(cur(m7))), n);
            let m9 = new_block(m8);
            lemma_frozen_new_block(m8, n);
            lemma_frozen_patch(m9, label(m.break_counter as int), label(cur(m9)), n);
            lemma_frozen_trans(m, mb, m5, n, n);
            lemma_frozen_trans(m, m5, m6, n, n);
            lemma_frozen_trans(m, m6, m7, n, n);
            lemma_frozen_trans(m, m7, m8, n, n);
            lemma_frozen_trans(m, m8, m9, n, n);
            lemma_frozen_trans(m, m9, patch_breaks(m9, label(m.break_counter as int), label(cur(m9))), n, n);
        },
        DslIr::Loop(body) => {
            let m2 = new_block(open_loop(m));
            lemma_frozen_new_block(open_loop(m), n);
            lemma_build_ops_frozen(m2, body@);
            let mb = build_ops_spec(m2, body@)->Some_0;
            lemma_frozen_trans(m, m2, mb, n, cur(m2));
            let m4 = push_to(mb, cur(mb), jump_spec(label(cur(m2))));
            lemma_frozen_push(mb, cur(mb), jump_spec(label(cur(m2))), n);
            let m5 = new_block(m4);
            lemma_frozen_new_block(m4, n);
            lemma_frozen_patch(m5, label(m.break_counter as int), label(cur(m5)), n);
            lemma_frozen_trans(m, mb, m4, n, n);
            lemma_frozen_trans(m, m4, m5, n, n);
            lemma_frozen_trans(m, m5, patch_breaks(m5, label(m.break_counter as int), label(cur(m5))), n, n);
        },
        DslIr::Break => {
            lemma_frozen_push(note_break(m), cur(m), AsmInstruction::Break(m.break_label->0), n);
        },
        _ => {},
    }
}

/// Compiling a sequence changes no block before the current one but by resolving breaks.
proof fn lemma_build_ops_frozen(m: CompilerModel, ops: Seq<DslIr>)
    requires
        m.blocks.len() >= 1,
        build_ops_spec(m, ops) is Some,
    ensures
        frozen_below(m, build_ops_spec(m, ops)->Some_0, cur(m)),
    decreases ops,
{
    if ops.len() == 0 {
        lemma_frozen_refl(m, cur(m));
    } else {
        lemma_build_ops_frozen(m, ops.drop_last());
        let m1 = build_ops_spec(m, ops.drop_last())->Some_0;
        lemma_build_op_frozen(m1, ops.last());
        lemma_frozen_trans(m, m1, build_op_spec(m1, ops.last())->Some_0, cur(m), cur(m1));
    }
}

} // verus!
