//! A verified model of the native field-arithmetic extension of the OpenVM zkVM: the BabyBear
//! field and its quartic extension, the native opcodes, the eDSL builder, the assembly compiler
//! and its conversion to VM instructions, and the execution logic of the native chips.
pub mod field;
pub mod opcodes;
pub mod extension;

pub mod ir;
pub mod assembly;
pub mod lowering;
pub mod compiler;
pub mod conversion;
pub mod machine;
pub mod bus;
pub mod jal;
pub mod loadstore;
pub mod alu;
pub mod chips;
pub mod fri;
pub mod poseidon2;
pub mod native;
pub mod builder;
pub mod display;
pub mod kernel;
pub mod symbolic;
