//! The instruction set of the virtual machine, as far as jump control and
//! the control-flow instructions use it.

use vstd::prelude::*;

verus! {

/// An instruction of the virtual machine.
#[derive(Clone, Copy, Debug, PartialEq, Eq, Structural)]
pub enum Opcode {
    Pop,
    PushZero,
    PushFalse,
    PushTrue,
    PushInt32,
    PushDeclarativeEnvironment,
    PopEnvironment,
    Jump,
    JumpIfFalse,
    JumpTable,
    Break,
    Continue,
    LabelledStart,
    LabelledEnd,
    TryStart,
    TryEnd,
    FinallyStart,
    GetReturnValue,
    SetReturnValue,
    Exception,
    Throw,
    ReThrow,
    ThrowNewTypeError,
    IteratorLoopStart,
    LoopStart,
    LoopContinue,
    LoopEnd,
    IteratorClose,
    AsyncIteratorClose,
    DefInitLet,
}

impl Opcode {
    /// The word that encodes this instruction in the bytecode.
    pub open spec fn code(self) -> u32 {
        match self {
            Opcode::Pop => 0,
            Opcode::PushZero => 1,
            Opcode::PushFalse => 2,
            Opcode::PushTrue => 3,
            Opcode::PushInt32 => 4,
            Opcode::PushDeclarativeEnvironment => 5,
            Opcode::PopEnvironment => 6,
            Opcode::Jump => 7,
            Opcode::JumpIfFalse => 8,
            Opcode::JumpTable => 9,
            Opcode::Break => 10,
            Opcode::Continue => 11,
            Opcode::LabelledStart => 12,
            Opcode::LabelledEnd => 13,
            Opcode::TryStart => 14,
            Opcode::TryEnd => 15,
            Opcode::FinallyStart => 16,
            Opcode::GetReturnValue => 17,
            Opcode::SetReturnValue => 18,
            Opcode::Exception => 19,
            Opcode::Throw => 20,
            Opcode::ReThrow => 21,
            Opcode::ThrowNewTypeError => 22,
            Opcode::IteratorLoopStart => 23,
            Opcode::LoopStart => 24,
            Opcode::LoopContinue => 25,
            Opcode::LoopEnd => 26,
            Opcode::IteratorClose => 27,
            Opcode::AsyncIteratorClose => 28,
            Opcode::DefInitLet => 29,
        }
    }

    /// Encodes this instruction as a bytecode word.
    pub fn to_word(self) -> (r: u32)
        ensures
            r == self.code(),
    {
        match self {
            Opcode::Pop => 0,
            Opcode::PushZero => 1,
            Opcode::PushFalse => 2,
            Opcode::PushTrue => 3,
            Opcode::PushInt32 => 4,
            Opcode::PushDeclarativeEnvironment => 5,
            Opcode::PopEnvironment => 6,
            Opcode::Jump => 7,
            Opcode::JumpIfFalse => 8,
            Opcode::JumpTable => 9,
            Opcode::Break => 10,
            Opcode::Continue => 11,
            Opcode::LabelledStart => 12,
            Opcode::LabelledEnd => 13,
            Opcode::TryStart => 14,
            Opcode::TryEnd => 15,
            Opcode::FinallyStart => 16,
            Opcode::GetReturnValue => 17,
            Opcode::SetReturnValue => 18,
            Opcode::Exception => 19,
            Opcode::Throw => 20,
            Opcode::ReThrow => 21,
            Opcode::ThrowNewTypeError => 22,
            Opcode::IteratorLoopStart => 23,
            Opcode::LoopStart => 24,
            Opcode::LoopContinue => 25,
            Opcode::LoopEnd => 26,
            Opcode::IteratorClose => 27,
            Opcode::AsyncIteratorClose => 28,
            Opcode::DefInitLet => 29,
        }
    }
}

/// Distinct instructions are encoded by distinct words.
pub proof fn lemma_code_injective(a: Opcode, b: Opcode)
    ensures
        a.code() == b.code() <==> a == b,
{
}

} // verus!
