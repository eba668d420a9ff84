# rwasm

A verified compiler from loaded Wasm modules to rWasm bytecode, written in Verus.

- `src/module.rs`, `src/engine.rs`, `src/common.rs`: a loaded module, its function types,
  bodies and constants.
- `src/import_linker.rs`: the host functions that a module may call, by name.
- `src/instruction.rs`, `src/instruction_set.rs`, `src/binary_format.rs`: the bytecode, code
  that is being put together, and the binary form of an instruction.
- `src/machine.rs`: what straight-line code does to a stack and a memory.
- `src/compiler/`: the compiler. `translation.rs` says what code a module stands for, `mod.rs`
  produces it, `drop_keep.rs` has the code that moves values down the stack, `link.rs` turns
  code into bytes, and `laws.rs` holds what is true of the result as a whole.
- `src/bitwise.rs`: the right shift of 256-bit words.

Reading a Wasm binary is left to the caller, who hands `Compiler::new` a function that loads
one into an engine.
