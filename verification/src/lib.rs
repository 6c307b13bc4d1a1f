//! Verified core of the Smart Intermediate Representation toolchain:
//! compile options, the signed LEB128 codec used for storage paths, the
//! IR control-flow model and its tensor features, the Yul front end, the
//! code generator's interface and storage paths, the wasm linker's command
//! line and finishing step, the mock virtual machine's context, and the
//! text logic of turning Solidity sources into Yul programs.

pub mod ir_config;
pub mod leb128;
pub mod yul;
pub mod ir;
pub mod codegen;
pub mod const_storage_path;
pub mod tensor;
pub mod linker;
pub mod vm;
pub mod sol2tensor;
