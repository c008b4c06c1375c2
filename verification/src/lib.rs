//! Jump-control bookkeeping of a JavaScript bytecode compiler, and the
//! control-flow instructions of the virtual machine that runs its output.

pub mod interner;
pub mod opcode;
pub mod bytecompiler;
pub mod jump_control;
pub mod syntax;
pub mod statement;
pub mod text;
pub mod call_frame;
pub mod vm;
pub mod control_flow;
pub mod loop_ops;
pub mod try_statement;
