//! The intermediate representation of the eDSL: variables of the native field (`Var`), field
//! elements (`Felt`), extension elements (`Ext`), pointers, and the `DslIr` instruction set that
//! the builder emits and the assembly compiler consumes.
use crate::field::BabyBear;
use std::rc::Rc;
use vstd::prelude::*;

verus! {

/// A variable holding a native field element used for control and addresses.
#[derive(Clone, Copy, Debug, PartialEq, Eq, Structural)]
pub struct Var(pub u32);

/// A variable holding a base-field element.
#[derive(Clone, Copy, Debug, PartialEq, Eq, Structural)]
pub struct Felt(pub u32);

/// A variable holding an extension-field element (four consecutive cells).
#[derive(Clone, Copy, Debug, PartialEq, Eq, Structural)]
pub struct Ext(pub u32);

/// A pointer into the heap, stored in a variable.
#[derive(Clone, Copy, Debug, PartialEq, Eq, Structural)]
pub struct Ptr {
    pub address: Var,
}

/// A right value of a `Var`: either a constant or a variable.  It is never assigned to.
#[derive(Clone, Copy, Debug, PartialEq, Eq, Structural)]
pub enum RVar {
    Const(BabyBear),
    Val(Var),
}

/// A length: a compile-time constant or a variable.
#[derive(Clone, Copy, Debug, PartialEq, Eq, Structural)]
pub enum Usize {
    Const(usize),
    Var(Var),
}

/// An index into a heap array: `index * size + offset`.
#[derive(Clone, Copy, Debug, PartialEq, Eq, Structural)]
pub struct MemIndex {
    pub index: RVar,
    pub offset: usize,
    pub size: usize,
}

/// Calls `Rc::clone`, which makes another pointer to the same allocation: to Verus, which sees
/// an `Rc` as the value it points to, the result is that value.
#[verifier::external_body]
fn share<T>(this: &Rc<T>) -> (r: Rc<T>)
    ensures
        r == *this,
{
    Rc::clone(this)
}

/// A logical array: fixed (only in the DSL, shared between its copies) or dynamic (on the heap).
#[derive(Debug)]
pub enum Array<T> {
    Fixed(Rc<Vec<Option<T>>>),
    Dyn(Ptr, Usize),
}

/// An extension-field constant, by its four coordinates.
pub type ExtConst = [BabyBear; 4];

/// The intermediate instruction set.
#[derive(Debug)]
pub enum DslIr {
    // Immediates.
    ImmV(Var, BabyBear),
    ImmF(Felt, BabyBear),
    ImmE(Ext, ExtConst),
    // Additions.
    AddV(Var, Var, Var),
    AddVI(Var, Var, BabyBear),
    AddF(Felt, Felt, Felt),
    AddFI(Felt, Felt, BabyBear),
    AddE(Ext, Ext, Ext),
    AddEI(Ext, Ext, ExtConst),
    AddEF(Ext, Ext, Felt),
    AddEFI(Ext, Ext, BabyBear),
    AddEFFI(Ext, Felt, ExtConst),
    // Subtractions.
    SubV(Var, Var, Var),
    SubVI(Var, Var, BabyBear),
    SubVIN(Var, BabyBear, Var),
    SubF(Felt, Felt, Felt),
    SubFI(Felt, Felt, BabyBear),
    SubFIN(Felt, BabyBear, Felt),
    SubE(Ext, Ext, Ext),
    SubEI(Ext, Ext, ExtConst),
    SubEIN(Ext, ExtConst, Ext),
    SubEFI(Ext, Ext, BabyBear),
    SubEF(Ext, Ext, Felt),
    // Multiplications.
    MulV(Var, Var, Var),
    MulVI(Var, Var, BabyBear),
    MulF(Felt, Felt, Felt),
    MulFI(Felt, Felt, BabyBear),
    MulE(Ext, Ext, Ext),
    MulEI(Ext, Ext, ExtConst),
    MulEFI(Ext, Ext, BabyBear),
    MulEF(Ext, Ext, Felt),
    // Divisions.
    DivF(Felt, Felt, Felt),
    DivFI(Felt, Felt, BabyBear),
    DivFIN(Felt, BabyBear, Felt),
    DivE(Ext, Ext, Ext),
    DivEI(Ext, Ext, ExtConst),
    DivEIN(Ext, ExtConst, Ext),
    DivEFI(Ext, Ext, BabyBear),
    DivEF(Ext, Ext, Felt),
    // Negations.
    NegV(Var, Var),
    NegF(Felt, Felt),
    NegE(Ext, Ext),
    /// Cast a Felt to a Var.
    CastFV(Var, Felt),
    /// Cast a Var to a Felt.
    UnsafeCastVF(Felt, Var),
    // Control flow.
    /// `for loop_var in (start..end).step_by(step) { body }`.
    For(RVar, RVar, BabyBear, Var, Vec<DslIr>),
    /// An infinite loop, left with `Break`.
    Loop(Vec<DslIr>),
    /// Leaves the innermost loop.
    Break,
    IfEq(Var, Var, Vec<DslIr>, Vec<DslIr>),
    IfNe(Var, Var, Vec<DslIr>, Vec<DslIr>),
    IfEqI(Var, BabyBear, Vec<DslIr>, Vec<DslIr>),
    IfNeI(Var, BabyBear, Vec<DslIr>, Vec<DslIr>),
    // Assertions.
    AssertEqV(Var, Var),
    AssertEqF(Felt, Felt),
    AssertEqE(Ext, Ext),
    AssertEqVI(Var, BabyBear),
    AssertEqFI(Felt, BabyBear),
    AssertEqEI(Ext, ExtConst),
    AssertNeV(Var, Var),
    AssertNeF(Felt, Felt),
    AssertNeE(Ext, Ext),
    AssertNeVI(Var, BabyBear),
    AssertNeFI(Felt, BabyBear),
    AssertNeEI(Ext, ExtConst),
    AssertNonZero(Usize),
    // Memory.
    Alloc(Ptr, RVar, usize),
    LoadV(Var, Ptr, MemIndex),
    LoadF(Felt, Ptr, MemIndex),
    LoadE(Ext, Ptr, MemIndex),
    LoadHeapPtr(Ptr),
    StoreV(Var, Ptr, MemIndex),
    StoreF(Felt, Ptr, MemIndex),
    StoreE(Ext, Ptr, MemIndex),
    StoreHeapPtr(Ptr),
    // Bits.
    CircuitNum2BitsF(Felt, Vec<Var>),
    CircuitVarTo64BitsF(Var, [Felt; 4]),
    // Hashing.
    Poseidon2PermuteBabyBear(Array<Felt>, Array<Felt>),
    Poseidon2CompressBabyBear(Array<Felt>, Array<Felt>, Array<Felt>),
    CircuitPoseidon2Permute([Var; 3]),
    // Miscellaneous.
    PrintV(Var),
    PrintF(Felt),
    PrintE(Ext),
    Error,
    HintInputVec,
    HintFelt,
    HintBitsF(Felt, u32),
    HintBitsV(Var, u32),
    StoreHintWord(Ptr, MemIndex),
    HintLoad,
    WitnessVar(Var, u32),
    WitnessFelt(Felt, u32),
    WitnessExt(Ext, u32),
    Publish(Felt, Var),
    Halt,
    CircuitPublish(Var, usize),
    CircuitSelectV(Var, Var, Var, Var),
    CircuitSelectF(Var, Felt, Felt, Felt),
    CircuitSelectE(Var, Ext, Ext, Ext),
    CircuitExt2Felt([Felt; 4], Ext),
    CircuitFelts2Ext([Felt; 4], Ext),
    CircuitFeltReduce(Felt),
    CircuitExtReduce(Ext),
    CircuitLessThan(Var, Var),
    /// FriReducedOpening(alpha, hint_id, is_init, at_x_array, at_z_array, result)
    FriReducedOpening(Ext, Var, Var, Array<Felt>, Array<Ext>, Ext),
    /// VerifyBatch(dimensions, opened values, proof id, index bits, commitment), felt values.
    VerifyBatchFelt(Array<Usize>, Array<Array<Felt>>, Var, Array<Var>, Array<Felt>),
    /// VerifyBatch(dimensions, opened values, proof id, index bits, commitment), ext values.
    VerifyBatchExt(Array<Usize>, Array<Array<Ext>>, Var, Array<Var>, Array<Felt>),
    /// Assert that `v < 2^bits`.
    RangeCheckV(Var, usize),
    CycleTrackerStart(String),
    CycleTrackerEnd(String),
}

impl RVar {
    /// The constant 0.
    pub fn zero() -> (r: RVar)
        ensures
            r == RVar::Const(BabyBear { v: 0 }),
    {
        RVar::Const(BabyBear::zero())
    }

    /// The constant 1.
    pub fn one() -> (r: RVar)
        ensures
            r == RVar::Const(BabyBear { v: 1 }),
    {
        RVar::Const(BabyBear::one())
    }

    /// A constant right value.
    pub fn from_field(n: BabyBear) -> (r: RVar)
        ensures
            r == RVar::Const(n),
    {
        RVar::Const(n)
    }

    /// A constant right value from a `usize`.
    pub fn from_usize(n: usize) -> (r: RVar)
        requires
            n < crate::field::BABY_BEAR_P,
        ensures
            r == RVar::Const(BabyBear { v: n as u32 }),
    {
        RVar::Const(BabyBear::from_canonical_usize(n))
    }

    /// A variable right value.
    pub fn from_var(v: Var) -> (r: RVar)
        ensures
            r == RVar::Val(v),
    {
        RVar::Val(v)
    }

    pub fn is_const(&self) -> (r: bool)
        ensures
            r == (*self is Const),
    {
        match self {
            RVar::Const(_) => true,
            RVar::Val(_) => false,
        }
    }

    /// The value of a constant, as a `usize`; a variable has none.
    pub fn value(&self) -> (r: usize)
        requires
            *self is Const,
        ensures
            r == self->Const_0.v,
    {
        match self {
            RVar::Const(c) => c.v as usize,
            RVar::Val(_) => 0,
        }
    }

    /// The value of a constant, as a field element; a variable has none.
    pub fn field_value(&self) -> (r: BabyBear)
        requires
            *self is Const,
        ensures
            r == self->Const_0,
    {
        match self {
            RVar::Const(c) => *c,
            RVar::Val(_) => BabyBear::zero(),
        }
    }

    /// The variable of a variable right value; a constant has none.
    pub fn variable(&self) -> (r: Var)
        requires
            *self is Val,
        ensures
            r == self->Val_0,
    {
        match self {
            RVar::Const(_) => Var(0),
            RVar::Val(v) => *v,
        }
    }
}

/// Converts a canonical field value to a `usize`.
pub fn prime_field_to_usize(x: BabyBear) -> (r: usize)
    ensures
        r == x.v,
{
    x.v as usize
}

impl<T: Copy> Array<T> {
    /// The entries of a fixed array whose entries are all set.
    pub fn vec(&self) -> (r: Vec<T>)
        requires
            *self is Fixed,
            forall|i: int| 0 <= i < self->Fixed_0@.len() ==> (#[trigger] self->Fixed_0@[i]) is Some,
        ensures
            r@.len() == self->Fixed_0@.len(),
            forall|i: int| 0 <= i < r@.len() ==> Some(#[trigger] r@[i]) == self->Fixed_0@[i],
    {
        let mut out: Vec<T> = Vec::new();
        match self {
            Array::Fixed(v) => {
                let n = v.len();
                let mut i: usize = 0;
                while i < n
                    invariant
                        *self is Fixed,
                        *v == self->Fixed_0,
                        n == v@.len(),
                        i <= n,
                        out@.len() == i,
                        forall|k: int| 0 <= k < v@.len() ==> (#[trigger] v@[k]) is Some,
                        forall|k: int| 0 <= k < i ==> Some(#[trigger] out@[k]) == v@[k],
                    decreases n - i,
                {
                    match v[i] {
                        Some(x) => out.push(x),
                        None => {},
                    }
                    i = i + 1;
                }
            },
            Array::Dyn(_, _) => {},
        }
        out
    }
}

impl<T> Array<T> {
    /// The pointer of a dynamic array; a fixed array has none.
    pub fn ptr(&self) -> (r: Ptr)
        requires
            *self is Dyn,
        ensures
            r == self->Dyn_0,
    {
        match self {
            Array::Dyn(p, _) => *p,
            Array::Fixed(_) => Ptr { address: Var(0) },
        }
    }

    /// The length of the array.
    pub fn len(&self) -> (r: Usize)
        ensures
            *self is Fixed ==> r == Usize::Const(self->Fixed_0@.len() as usize),
            *self is Dyn ==> r == self->Dyn_1,
    {
        match self {
            Array::Fixed(v) => Usize::Const(v.len()),
            Array::Dyn(_, l) => *l,
        }
    }

    /// Another handle on the same array.
    pub fn clone(&self) -> (r: Self)
        ensures
            r == *self,
    {
        match self {
            Array::Fixed(v) => Array::Fixed(share(v)),
            Array::Dyn(p, l) => Array::Dyn(*p, *l),
        }
    }

    pub fn is_fixed(&self) -> (r: bool)
        ensures
            r == (*self is Fixed),
    {
        match self {
            Array::Fixed(_) => true,
            Array::Dyn(_, _) => false,
        }
    }
}

} // verus!
