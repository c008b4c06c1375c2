//! A `CallFrame` holds the state of a function call.

use vstd::prelude::*;

use crate::vm::{CodeBlock, JsValue};

verus! {

/// A try block entered and not yet left: where its `catch` starts and the
/// heights of the value and environment stacks when it was entered.
#[derive(Clone, Copy, Debug, PartialEq, Eq, Structural)]
pub struct TryStackEntry {
    pub catch: u32,
    /// The length of the value stack when the try block was entered; a
    /// throw pops the values above it.
    pub fp: u32,
    /// The length of the environment stack when the try block was entered.
    pub env_fp: u32,
}

impl TryStackEntry {
    pub fn new(catch: u32, fp: u32, env_fp: u32) -> (r: Self)
        ensures
            r == (TryStackEntry { catch, fp, env_fp }),
    {
        TryStackEntry { catch, fp, env_fp }
    }

    pub fn catch(&self) -> (r: u32)
        ensures
            r == self.catch,
    {
        self.catch
    }

    pub fn fp(&self) -> (r: u32)
        ensures
            r == self.fp,
    {
        self.fp
    }

    pub fn env_fp(&self) -> (r: u32)
        ensures
            r == self.env_fp,
    {
        self.env_fp
    }
}

/// How a generator function that has been called or resumed should return.
#[derive(Clone, Copy, Debug, PartialEq, Eq, Structural)]
pub enum GeneratorResumeKind {
    Normal,
    Throw,
    Return,
}

impl Default for GeneratorResumeKind {
    fn default() -> (r: Self)
        ensures
            r == GeneratorResumeKind::Normal,
    {
        GeneratorResumeKind::Normal
    }
}

/// The state of a function call.
pub struct CallFrame {
    pub code_block: CodeBlock,
    pub pc: u32,
    pub fp: u32,
    pub is_yield: bool,
    /// The try blocks entered and not yet left, innermost last.
    pub try_stack: Vec<TryStackEntry>,
    pub argument_count: u32,
    pub generator_resume_kind: GeneratorResumeKind,
    /// How many iterations a loop has done.
    pub loop_iteration_count: u64,
    /// The value that is returned from the function.
    pub return_value: JsValue,
}

impl CallFrame {
    /// The code block this frame runs.
    pub fn code_block(&self) -> (r: &CodeBlock)
        ensures
            r == &self.code_block,
    {
        &self.code_block
    }

    /// A frame at the start of `code_block`.
    pub fn new(code_block: CodeBlock) -> (r: Self)
        ensures
            r.code_block == code_block,
            r.pc == 0,
            r.fp == 0,
            !r.is_yield,
            r.try_stack@ == Seq::<TryStackEntry>::empty(),
            r.argument_count == 0,
            r.generator_resume_kind == GeneratorResumeKind::Normal,
            r.loop_iteration_count == 0,
            r.return_value is Undefined,
    {
        CallFrame {
            code_block,
            pc: 0,
            fp: 0,
            try_stack: Vec::new(),
            is_yield: false,
            argument_count: 0,
            generator_resume_kind: GeneratorResumeKind::Normal,
            loop_iteration_count: 0,
            return_value: JsValue::Undefined,
        }
    }

    /// This frame with `count` arguments.
    pub fn with_argument_count(self, count: u32) -> (r: Self)
        ensures
            r == (CallFrame { argument_count: count, ..self }),
    {
        let mut s = self;
        s.argument_count = count;
        s
    }

    pub fn set_frame_pointer(&mut self, pointer: u32)
        ensures
            *final(self) == (CallFrame { fp: pointer, ..*old(self) }),
    {
        self.fp = pointer;
    }
}

} // verus!
