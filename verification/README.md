# smart_ir

Verified core of the Smart Intermediate Representation toolchain, written in
Verus.

- `src/ir_config.rs`: compile targets, optimization levels and options.
- `src/leb128.rs`: signed LEB128, with the laws that decoding gives back
  what encoding wrote.
- `src/ir.rs`, `src/tensor.rs`: the IR's control-flow model and the tensor
  features computed from it (feature trees, branch edges, per-function data).
- `src/yul/`: the Yul front end. The lexer's tokens are the only ones a text
  splits into; the parser accepts exactly the texts of the syntax trees it
  can produce, and what it returns is written as the text it read.
  `instruction.rs` maps builtin names to EVM instructions and back, and
  `transform.rs` rewrites a `switch` into a chain of branches.
- `src/codegen.rs`, `src/const_storage_path.rs`: the code generator's
  interface and the storage paths it builds.
- `src/linker.rs`: the `wasm-ld` command line and the finishing of the linked
  module (start function, stack pointer) through `parity-wasm`.
- `src/vm.rs`: the mock virtual machine's context, hashing and signatures.
- `src/sol2tensor.rs`: the text logic of turning crawled Solidity sources into
  Yul programs.

`app/` holds what runs outside the verifier: running the linker and the
compiler, files, and the serde forms of the tensor data.

Not in the library: the lowering of Yul into the IR (it builds through an IR
builder that is not part of these sources) and the LLVM code generator;
`src/codegen.rs` holds only the code generator's interface.
