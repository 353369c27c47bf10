# openvm_native

The native field-arithmetic extension of the OpenVM zkVM, written in Verus: the BabyBear field
and its quartic extension, the opcodes of the native kernel, the eDSL builder and its symbolic
expressions, the assembly compiler and its conversion to VM instructions, and the execution and
trace logic of the native chips, each function with a contract that Verus proves.

Layout of `src/`:

- `field`, `extension`: the base field and the extension field, with inverses.
- `opcodes`, `native`: opcode classes and numbers, the extension's executor table and phantom
  sub-executors.
- `ir`, `symbolic`, `builder`: the DSL instruction set, symbolic expressions with constant
  folding and digests, and the builder that records a program.
- `assembly`, `lowering`, `compiler`, `conversion`, `display`: frame layout, the lowering of each
  DSL instruction, the block compiler, the conversion of assembly to VM instructions and the
  assembly text.
- `machine`, `jal`, `loadstore`, `alu`, `chips`, `fri`, `poseidon2`: the memory model and the
  chips' execution, trace rows and AIR constraints.
- `kernel`: parsing of kernel function signatures.

`tests/` runs the library on concrete values; `app/` holds the serde copies of a few types and
the token-stream entry of the kernel parser.

Left out: the halo2 constraint backend of the compiler (`BabyBearChip`, `BabyBearExt4Chip`,
`AssignedBabyBear` and the halo2 Poseidon2 permutation). Its values are cells of a halo2 circuit
whose gates live in an outside proving library, so nothing of it is modelled here.

Also left out, because the files they are built on are not part of this source tree: the
builder's array and reference operations (`get`, `set`, `set_value`, `slice`, `shift`,
`truncate`, `iter_ptr_get`, `iter_ptr_set`, `array`, `dyn_array`), the builder calls built on
them (`poseidon2_permute`, `poseidon2_compress`, `poseidon2_hash`, `poseidon2_hash_x`,
`poseidon2_hash_ext`, `num2bits_f`, `exp_bits_big_endian`, `ext2felt`), and the traits
`Variable`, `MemVariable`, `FromConstant` and `ArrayLike`, whose implementations for variables,
felts and extension elements live in those files; the closure-driven `IfCompiler`,
`ForCompiler` and `LoopCompiler` interfaces, whose compilation is done here on the DSL's nested
instruction form instead; and `NativeConfig`, which is a configuration
of the outside VM system.

