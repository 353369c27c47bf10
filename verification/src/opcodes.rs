//! The opcodes of the native kernel and the system opcodes they are combined with.  A global
//! opcode is the class offset of its opcode class plus the local index of the opcode.
use vstd::prelude::*;
use vstd::string::StringExecFns;

verus! {

/// The step between two consecutive program counters.
pub const DEFAULT_PC_STEP: u32 = 4;

/// The size of a block load/store.
pub const BLOCK_LOAD_STORE_SIZE: usize = 4;

/// A global opcode of the VM.
#[derive(Clone, Copy, Debug, PartialEq, Eq, Structural)]
pub struct VmOpcode {
    pub v: usize,
}

impl VmOpcode {
    pub fn from_usize(v: usize) -> (r: VmOpcode)
        ensures
            r.v == v,
    {
        VmOpcode { v }
    }

    pub fn as_usize(&self) -> (r: usize)
        ensures
            r == self.v,
    {
        self.v
    }

    /// The index of this opcode inside the class that starts at `offset`.
    pub fn local_opcode_idx(&self, offset: usize) -> (r: usize)
        requires
            offset <= self.v,
        ensures
            r == self.v - offset,
    {
        self.v - offset
    }
}

/// Load/store of single native words.
#[allow(non_camel_case_types)]
#[derive(Clone, Copy, Debug, PartialEq, Eq, Structural)]
pub enum NativeLoadStoreOpcode {
    LOADW,
    STOREW,
    /// Writes the next hint word into memory.
    HINT_STOREW,
}

impl NativeLoadStoreOpcode {
    pub const CLASS_OFFSET: usize = 0x100;

    /// The opcode's name, as its `Debug` form prints it.
    pub open spec fn name_spec(self) -> Seq<char> {
        match self {
            NativeLoadStoreOpcode::LOADW => "LOADW"@,
            NativeLoadStoreOpcode::STOREW => "STOREW"@,
            NativeLoadStoreOpcode::HINT_STOREW => "HINT_STOREW"@,
        }
    }

    /// The opcode's name.
    pub fn name(&self) -> (r: String)
        ensures
            r@ == self.name_spec(),
    {
        match self {
            NativeLoadStoreOpcode::LOADW => String::from_str("LOADW"),
            NativeLoadStoreOpcode::STOREW => String::from_str("STOREW"),
            NativeLoadStoreOpcode::HINT_STOREW => String::from_str("HINT_STOREW"),
        }
    }

    pub open spec fn spec_local(self) -> usize {
        match self {
            NativeLoadStoreOpcode::LOADW => 0,
            NativeLoadStoreOpcode::STOREW => 1,
            NativeLoadStoreOpcode::HINT_STOREW => 2,
        }
    }

    pub fn local_usize(&self) -> (r: usize)
        ensures
            r == self.spec_local(),
    {
        match self {
            NativeLoadStoreOpcode::LOADW => 0,
            NativeLoadStoreOpcode::STOREW => 1,
            NativeLoadStoreOpcode::HINT_STOREW => 2,
        }
    }

    /// The opcode with the given local index, if any.
    pub fn from_usize(i: usize) -> (r: Option<NativeLoadStoreOpcode>)
        ensures
            i < 3 <==> r is Some,
            r is Some ==> r->0.spec_local() == i,
    {
        if i == 0 {
            Some(NativeLoadStoreOpcode::LOADW)
        } else if i == 1 {
            Some(NativeLoadStoreOpcode::STOREW)
        } else if i == 2 {
            Some(NativeLoadStoreOpcode::HINT_STOREW)
        } else {
            None
        }
    }

    pub fn global_opcode(&self) -> (r: VmOpcode)
        ensures
            r.v == Self::CLASS_OFFSET + self.spec_local(),
    {
        VmOpcode { v: Self::CLASS_OFFSET + self.local_usize() }
    }

    /// All opcodes of the class, in order.
    pub fn iter() -> (r: Vec<NativeLoadStoreOpcode>)
        ensures
            r@.len() == 3,
            forall|i: int| 0 <= i < 3 ==> (#[trigger] r@[i]).spec_local() == i,
    {
        vec![
            NativeLoadStoreOpcode::LOADW,
            NativeLoadStoreOpcode::STOREW,
            NativeLoadStoreOpcode::HINT_STOREW,
        ]
    }
}

/// Load/store of blocks of four native words.
#[derive(Clone, Copy, Debug, PartialEq, Eq, Structural)]
pub struct NativeLoadStore4Opcode(pub NativeLoadStoreOpcode);

impl NativeLoadStore4Opcode {
    pub const CLASS_OFFSET: usize = 0x108;

    pub fn local_usize(&self) -> (r: usize)
        ensures
            r == self.0.spec_local(),
    {
        self.0.local_usize()
    }

    pub fn global_opcode(&self) -> (r: VmOpcode)
        ensures
            r.v == Self::CLASS_OFFSET + self.0.spec_local(),
    {
        VmOpcode { v: Self::CLASS_OFFSET + self.local_usize() }
    }

    /// The block variants of all load/store opcodes, in order.
    pub fn iter() -> (r: Vec<NativeLoadStore4Opcode>)
        ensures
            r@.len() == 3,
            forall|i: int| 0 <= i < 3 ==> (#[trigger] r@[i]).0.spec_local() == i,
    {
        let all = NativeLoadStoreOpcode::iter();
        let mut out: Vec<NativeLoadStore4Opcode> = Vec::new();
        let mut i: usize = 0;
        while i < all.len()
            invariant
                all@.len() == 3,
                forall|k: int| 0 <= k < 3 ==> (#[trigger] all@[k]).spec_local() == k,
                i <= 3,
                out@.len() == i,
                forall|k: int| 0 <= k < i ==> (#[trigger] out@[k]).0 == all@[k],
            decreases 3 - i,
        {
            out.push(NativeLoadStore4Opcode(all[i]));
            i = i + 1;
        }
        out
    }
}

/// Branch on equality (the RISC-V branch opcodes, reused by the native kernel).
#[derive(Clone, Copy, Debug, PartialEq, Eq, Structural)]
pub enum BranchEqualOpcode {
    BEQ,
    BNE,
}

impl BranchEqualOpcode {
    pub open spec fn spec_local(self) -> usize {
        match self {
            BranchEqualOpcode::BEQ => 0,
            BranchEqualOpcode::BNE => 1,
        }
    }
}

/// The native branch-equal opcodes.
#[derive(Clone, Copy, Debug, PartialEq, Eq, Structural)]
pub struct NativeBranchEqualOpcode(pub BranchEqualOpcode);

impl NativeBranchEqualOpcode {
    pub const CLASS_OFFSET: usize = 0x110;

    pub fn global_opcode(&self) -> (r: VmOpcode)
        ensures
            r.v == Self::CLASS_OFFSET + self.0.spec_local(),
    {
        match self.0 {
            BranchEqualOpcode::BEQ => VmOpcode { v: Self::CLASS_OFFSET },
            BranchEqualOpcode::BNE => VmOpcode { v: Self::CLASS_OFFSET + 1 },
        }
    }

    /// Both native branch opcodes, in order.
    pub fn iter() -> (r: Vec<NativeBranchEqualOpcode>)
        ensures
            r@.len() == 2,
            r@[0].0 == BranchEqualOpcode::BEQ,
            r@[1].0 == BranchEqualOpcode::BNE,
    {
        vec![
            NativeBranchEqualOpcode(BranchEqualOpcode::BEQ),
            NativeBranchEqualOpcode(BranchEqualOpcode::BNE),
        ]
    }
}

/// Jump and link.
#[derive(Clone, Copy, Debug, PartialEq, Eq, Structural)]
pub enum NativeJalOpcode {
    JAL,
}

impl NativeJalOpcode {
    pub const CLASS_OFFSET: usize = 0x115;

    /// The opcode's name, as its `Debug` form prints it.
    pub fn name(&self) -> (r: String)
        ensures
            r@ == "JAL"@,
    {
        String::from_str("JAL")
    }

    pub fn global_opcode(&self) -> (r: VmOpcode)
        ensures
            r.v == Self::CLASS_OFFSET,
    {
        VmOpcode { v: Self::CLASS_OFFSET }
    }
}

/// Range check of a native word.
#[allow(non_camel_case_types)]
#[derive(Clone, Copy, Debug, PartialEq, Eq, Structural)]
pub enum NativeRangeCheckOpcode {
    RANGE_CHECK,
}

impl NativeRangeCheckOpcode {
    pub const CLASS_OFFSET: usize = 0x120;

    /// The opcode's name, as its `Debug` form prints it.
    pub fn name(&self) -> (r: String)
        ensures
            r@ == "RANGE_CHECK"@,
    {
        String::from_str("RANGE_CHECK")
    }

    pub fn global_opcode(&self) -> (r: VmOpcode)
        ensures
            r.v == Self::CLASS_OFFSET,
    {
        VmOpcode { v: Self::CLASS_OFFSET }
    }
}

/// Cast of a field element into four bytes.
#[derive(Clone, Copy, Debug, PartialEq, Eq, Structural)]
pub enum CastfOpcode {
    CASTF,
}

impl CastfOpcode {
    pub const CLASS_OFFSET: usize = 0x125;

    /// The opcode's name, as its `Debug` form prints it.
    pub fn name(&self) -> (r: String)
        ensures
            r@ == "CASTF"@,
    {
        String::from_str("CASTF")
    }

    pub fn global_opcode(&self) -> (r: VmOpcode)
        ensures
            r.v == Self::CLASS_OFFSET,
    {
        VmOpcode { v: Self::CLASS_OFFSET }
    }
}

/// Base-field arithmetic.
#[derive(Clone, Copy, Debug, PartialEq, Eq, Structural)]
pub enum FieldArithmeticOpcode {
    ADD,
    SUB,
    MUL,
    DIV,
}

impl FieldArithmeticOpcode {
    pub const CLASS_OFFSET: usize = 0x130;

    pub open spec fn spec_local(self) -> usize {
        match self {
            FieldArithmeticOpcode::ADD => 0,
            FieldArithmeticOpcode::SUB => 1,
            FieldArithmeticOpcode::MUL => 2,
            FieldArithmeticOpcode::DIV => 3,
        }
    }

    pub fn global_opcode(&self) -> (r: VmOpcode)
        ensures
            r.v == Self::CLASS_OFFSET + self.spec_local(),
    {
        let l: usize = match self {
            FieldArithmeticOpcode::ADD => 0,
            FieldArithmeticOpcode::SUB => 1,
            FieldArithmeticOpcode::MUL => 2,
            FieldArithmeticOpcode::DIV => 3,
        };
        VmOpcode { v: Self::CLASS_OFFSET + l }
    }
}

/// Extension-field arithmetic.
#[derive(Clone, Copy, Debug, PartialEq, Eq, Structural)]
pub enum FieldExtensionOpcode {
    FE4ADD,
    FE4SUB,
    BBE4MUL,
    BBE4DIV,
}

impl FieldExtensionOpcode {
    pub const CLASS_OFFSET: usize = 0x140;

    /// The opcode's name, as its `Debug` form prints it.
    pub open spec fn name_spec(self) -> Seq<char> {
        match self {
            FieldExtensionOpcode::FE4ADD => "FE4ADD"@,
            FieldExtensionOpcode::FE4SUB => "FE4SUB"@,
            FieldExtensionOpcode::BBE4MUL => "BBE4MUL"@,
            FieldExtensionOpcode::BBE4DIV => "BBE4DIV"@,
        }
    }

    /// The opcode's name.
    pub fn name(&self) -> (r: String)
        ensures
            r@ == self.name_spec(),
    {
        match self {
            FieldExtensionOpcode::FE4ADD => String::from_str("FE4ADD"),
            FieldExtensionOpcode::FE4SUB => String::from_str("FE4SUB"),
            FieldExtensionOpcode::BBE4MUL => String::from_str("BBE4MUL"),
            FieldExtensionOpcode::BBE4DIV => String::from_str("BBE4DIV"),
        }
    }

    pub open spec fn spec_local(self) -> usize {
        match self {
            FieldExtensionOpcode::FE4ADD => 0,
            FieldExtensionOpcode::FE4SUB => 1,
            FieldExtensionOpcode::BBE4MUL => 2,
            FieldExtensionOpcode::BBE4DIV => 3,
        }
    }

    pub fn local_usize(&self) -> (r: usize)
        ensures
            r == self.spec_local(),
    {
        match self {
            FieldExtensionOpcode::FE4ADD => 0,
            FieldExtensionOpcode::FE4SUB => 1,
            FieldExtensionOpcode::BBE4MUL => 2,
            FieldExtensionOpcode::BBE4DIV => 3,
        }
    }

    /// The opcode with the given local index, if any.
    pub fn from_usize(i: usize) -> (r: Option<FieldExtensionOpcode>)
        ensures
            i < 4 <==> r is Some,
            r is Some ==> r->0.spec_local() == i,
    {
        if i == 0 {
            Some(FieldExtensionOpcode::FE4ADD)
        } else if i == 1 {
            Some(FieldExtensionOpcode::FE4SUB)
        } else if i == 2 {
            Some(FieldExtensionOpcode::BBE4MUL)
        } else if i == 3 {
            Some(FieldExtensionOpcode::BBE4DIV)
        } else {
            None
        }
    }

    pub fn global_opcode(&self) -> (r: VmOpcode)
        ensures
            r.v == Self::CLASS_OFFSET + self.spec_local(),
    {
        VmOpcode { v: Self::CLASS_OFFSET + self.local_usize() }
    }
}

/// The phantom (no-effect) instructions of the native kernel.
#[derive(Clone, Copy, Debug, PartialEq, Eq, Structural)]
pub enum NativePhantom {
    /// Native field element print.
    Print,
    /// Prepare the next input vector for hinting.
    HintInput,
    /// Prepare the little-endian bit decomposition of a variable for hinting.
    HintBits,
    /// Move data from input stream into hint space.
    HintLoad,
    /// Prepare the next felt for hinting.
    HintFelt,
}

impl NativePhantom {
    pub open spec fn spec_discriminant(self) -> u16 {
        match self {
            NativePhantom::Print => 0x10,
            NativePhantom::HintInput => 0x11,
            NativePhantom::HintBits => 0x12,
            NativePhantom::HintLoad => 0x13,
            NativePhantom::HintFelt => 0x14,
        }
    }

    /// The phantom discriminant.
    pub fn discriminant(&self) -> (r: u16)
        ensures
            r == self.spec_discriminant(),
    {
        match self {
            NativePhantom::Print => 0x10,
            NativePhantom::HintInput => 0x11,
            NativePhantom::HintBits => 0x12,
            NativePhantom::HintLoad => 0x13,
            NativePhantom::HintFelt => 0x14,
        }
    }

    /// The phantom with the given discriminant, if any.
    pub fn from_repr(d: u16) -> (r: Option<NativePhantom>)
        ensures
            (0x10 <= d <= 0x14) <==> r is Some,
            r is Some ==> r->0.spec_discriminant() == d,
    {
        if d == 0x10 {
            Some(NativePhantom::Print)
        } else if d == 0x11 {
            Some(NativePhantom::HintInput)
        } else if d == 0x12 {
            Some(NativePhantom::HintBits)
        } else if d == 0x13 {
            Some(NativePhantom::HintLoad)
        } else if d == 0x14 {
            Some(NativePhantom::HintFelt)
        } else {
            None
        }
    }
}

/// Poseidon2 permutation and compression.
#[allow(non_camel_case_types)]
#[derive(Clone, Copy, Debug, PartialEq, Eq, Structural)]
pub enum Poseidon2Opcode {
    PERM_POS2,
    COMP_POS2,
}

impl Poseidon2Opcode {
    pub const CLASS_OFFSET: usize = 0x150;

    /// The opcode's name, as its `Debug` form prints it.
    pub open spec fn name_spec(self) -> Seq<char> {
        match self {
            Poseidon2Opcode::PERM_POS2 => "PERM_POS2"@,
            Poseidon2Opcode::COMP_POS2 => "COMP_POS2"@,
        }
    }

    /// The opcode's name.
    pub fn name(&self) -> (r: String)
        ensures
            r@ == self.name_spec(),
    {
        match self {
            Poseidon2Opcode::PERM_POS2 => String::from_str("PERM_POS2"),
            Poseidon2Opcode::COMP_POS2 => String::from_str("COMP_POS2"),
        }
    }

    pub open spec fn spec_local(self) -> usize {
        match self {
            Poseidon2Opcode::PERM_POS2 => 0,
            Poseidon2Opcode::COMP_POS2 => 1,
        }
    }

    pub fn global_opcode(&self) -> (r: VmOpcode)
        ensures
            r.v == Self::CLASS_OFFSET + self.spec_local(),
    {
        match self {
            Poseidon2Opcode::PERM_POS2 => VmOpcode { v: Self::CLASS_OFFSET },
            Poseidon2Opcode::COMP_POS2 => VmOpcode { v: Self::CLASS_OFFSET + 1 },
        }
    }

    /// The opcode with the given local index, if any.
    pub fn from_usize(i: usize) -> (r: Option<Poseidon2Opcode>)
        ensures
            i < 2 <==> r is Some,
            r is Some ==> r->0.spec_local() == i,
    {
        if i == 0 {
            Some(Poseidon2Opcode::PERM_POS2)
        } else if i == 1 {
            Some(Poseidon2Opcode::COMP_POS2)
        } else {
            None
        }
    }
}

/// Opcodes for FRI opening proofs.
#[allow(non_camel_case_types)]
#[derive(Clone, Copy, Debug, PartialEq, Eq, Structural)]
pub enum FriOpcode {
    /// The reduced opening polynomial is computed one evaluation per column polynomial, per
    /// opening point.
    FRI_REDUCED_OPENING,
}

impl FriOpcode {
    pub const CLASS_OFFSET: usize = 0x160;

    /// The opcode's name, as its `Debug` form prints it.
    pub fn name(&self) -> (r: String)
        ensures
            r@ == "FRI_REDUCED_OPENING"@,
    {
        String::from_str("FRI_REDUCED_OPENING")
    }

    pub fn global_opcode(&self) -> (r: VmOpcode)
        ensures
            r.v == Self::CLASS_OFFSET,
    {
        VmOpcode { v: Self::CLASS_OFFSET }
    }
}

/// Opcodes for batched Merkle verification.
#[allow(non_camel_case_types)]
#[derive(Clone, Copy, Debug, PartialEq, Eq, Structural)]
pub enum VerifyBatchOpcode {
    VERIFY_BATCH,
}

impl VerifyBatchOpcode {
    pub const CLASS_OFFSET: usize = 0x170;

    pub fn global_opcode(&self) -> (r: VmOpcode)
        ensures
            r.v == Self::CLASS_OFFSET,
    {
        VmOpcode { v: Self::CLASS_OFFSET }
    }
}

/// System opcodes.
#[derive(Clone, Copy, Debug, PartialEq, Eq, Structural)]
pub enum SystemOpcode {
    TERMINATE,
    PHANTOM,
}

impl SystemOpcode {
    pub const CLASS_OFFSET: usize = 0;

    pub fn global_opcode(&self) -> (r: VmOpcode)
        ensures
            r.v == (if *self is TERMINATE {
                0usize
            } else {
                1usize
            }),
    {
        match self {
            SystemOpcode::TERMINATE => VmOpcode { v: 0 },
            SystemOpcode::PHANTOM => VmOpcode { v: 1 },
        }
    }
}

/// Publishing of public values.
#[derive(Clone, Copy, Debug, PartialEq, Eq, Structural)]
pub enum PublishOpcode {
    PUBLISH,
}

impl PublishOpcode {
    pub const CLASS_OFFSET: usize = 0x020;

    pub fn global_opcode(&self) -> (r: VmOpcode)
        ensures
            r.v == Self::CLASS_OFFSET,
    {
        VmOpcode { v: Self::CLASS_OFFSET }
    }
}

/// System phantom instructions.
#[derive(Clone, Copy, Debug, PartialEq, Eq, Structural)]
pub enum SysPhantom {
    Nop,
    DebugPanic,
    CtStart,
    CtEnd,
}

impl SysPhantom {
    pub open spec fn spec_discriminant(self) -> u16 {
        match self {
            SysPhantom::Nop => 0,
            SysPhantom::DebugPanic => 1,
            SysPhantom::CtStart => 2,
            SysPhantom::CtEnd => 3,
        }
    }

    pub fn discriminant(&self) -> (r: u16)
        ensures
            r == self.spec_discriminant(),
    {
        match self {
            SysPhantom::Nop => 0,
            SysPhantom::DebugPanic => 1,
            SysPhantom::CtStart => 2,
            SysPhantom::CtEnd => 3,
        }
    }
}

} // verus!
