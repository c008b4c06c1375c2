//! The state of the virtual machine that the control-flow instructions read
//! and change.

use vstd::prelude::*;

use crate::call_frame::{CallFrame, TryStackEntry};

verus! {

/// A JavaScript value.
pub enum JsValue {
    Undefined,
    Null,
    Boolean(bool),
    Integer(i32),
    String(String),
}

/// An environment of bindings.
pub struct DeclarativeEnvironment {
    pub bindings: Vec<JsValue>,
}

/// Compiled code and the literals it refers to.
pub struct CodeBlock {
    pub bytecode: Vec<u32>,
    pub literals: Vec<JsValue>,
}

/// The kinds of native errors the control-flow instructions raise.
#[derive(Clone, Copy, Debug, PartialEq, Eq, Structural)]
pub enum JsNativeErrorKind {
    Type,
    RuntimeLimit,
}

/// An error raised by the engine itself.
pub struct JsNativeError {
    pub kind: JsNativeErrorKind,
    pub message: String,
}

impl JsNativeError {
    /// A `TypeError` without message.
    pub fn typ() -> (r: Self)
        ensures
            r.kind == JsNativeErrorKind::Type,
            r.message@ == Seq::<char>::empty(),
    {
        JsNativeError { kind: JsNativeErrorKind::Type, message: String::new() }
    }

    /// An error for an exceeded runtime limit, without message.
    pub fn runtime_limit() -> (r: Self)
        ensures
            r.kind == JsNativeErrorKind::RuntimeLimit,
            r.message@ == Seq::<char>::empty(),
    {
        JsNativeError { kind: JsNativeErrorKind::RuntimeLimit, message: String::new() }
    }

    /// This error with `message`.
    pub fn with_message(self, message: String) -> (r: Self)
        ensures
            r.kind == self.kind,
            r.message == message,
    {
        JsNativeError { kind: self.kind, message }
    }
}

/// An error: a thrown value, or an error of the engine.
pub enum JsError {
    Opaque(JsValue),
    Native(JsNativeError),
}

pub type JsResult<T> = Result<T, JsError>;

/// How an instruction completed.
#[derive(Clone, Copy, Debug, PartialEq, Eq, Structural)]
pub enum CompletionType {
    Normal,
    Return,
    Throw,
}

/// Limits on what a script may do.
#[derive(Clone, Copy, Debug, PartialEq, Eq, Structural)]
pub struct RuntimeLimits {
    pub loop_iteration_limit: u64,
}

impl RuntimeLimits {
    /// How many iterations a loop may do.
    pub fn loop_iteration_limit(&self) -> (r: u64)
        ensures
            r == self.loop_iteration_limit,
    {
        self.loop_iteration_limit
    }
}

/// The virtual machine.
pub struct Vm {
    /// The call frames, the running one last.
    pub frames: Vec<CallFrame>,
    /// The value stack.
    pub stack: Vec<JsValue>,
    /// The environment stack.
    pub environments: Vec<DeclarativeEnvironment>,
    /// The value being thrown, if any.
    pub err: Option<JsValue>,
    pub runtime_limits: RuntimeLimits,
}

impl Vm {
    /// The running frame.
    pub open spec fn frame(&self) -> CallFrame {
        self.frames@.last()
    }

    /// Whether there is a running frame.
    pub open spec fn has_frame(&self) -> bool {
        self.frames.len() > 0
    }

    /// Whether the running frame has a word to read at its program counter.
    pub open spec fn can_read(&self) -> bool {
        &&& self.has_frame()
        &&& self.frame().pc < self.frame().code_block.bytecode.len()
        &&& self.frame().pc < u32::MAX
    }

    /// The word at the running frame's program counter.
    pub open spec fn next_word(&self) -> u32 {
        self.frame().code_block.bytecode@[self.frame().pc as int]
    }

    /// The frames with the running one replaced by `frame`.
    pub open spec fn frames_with(&self, frame: CallFrame) -> Seq<CallFrame> {
        self.frames@.update(self.frames.len() - 1, frame)
    }

    /// Takes the running frame off the frame stack.
    pub fn pop_frame(&mut self) -> (frame: CallFrame)
        requires
            old(self).has_frame(),
        ensures
            frame == old(self).frame(),
            final(self).frames@ == old(self).frames@.drop_last(),
            final(self).stack == old(self).stack,
            final(self).environments == old(self).environments,
            final(self).err == old(self).err,
            final(self).runtime_limits == old(self).runtime_limits,
    {
        self.frames.pop().unwrap()
    }

    /// Reads the word at the running frame's program counter and advances it.
    pub fn read_u32(&mut self) -> (r: u32)
        requires
            old(self).can_read(),
        ensures
            r == old(self).next_word(),
            final(self).frames@ == old(self).frames_with(
                CallFrame { pc: (old(self).frame().pc + 1) as u32, ..old(self).frame() },
            ),
            final(self).stack == old(self).stack,
            final(self).environments == old(self).environments,
            final(self).err == old(self).err,
            final(self).runtime_limits == old(self).runtime_limits,
    {
        let mut frame = self.pop_frame();
        let r = frame.code_block.bytecode[frame.pc as usize];
        frame.pc = frame.pc + 1;
        self.frames.push(frame);
        proof {
            assert(self.frames@ =~= old(self).frames_with(
                CallFrame { pc: (old(self).frame().pc + 1) as u32, ..old(self).frame() },
            ));
        }
        r
    }

    /// Pops the top value of the value stack.
    pub fn pop(&mut self) -> (r: JsValue)
        requires
            old(self).stack.len() > 0,
        ensures
            r == old(self).stack@.last(),
            final(self).stack@ == old(self).stack@.drop_last(),
            final(self).frames == old(self).frames,
            final(self).environments == old(self).environments,
            final(self).err == old(self).err,
            final(self).runtime_limits == old(self).runtime_limits,
    {
        self.stack.pop().unwrap()
    }

    /// Pushes `value` onto the value stack.
    pub fn push(&mut self, value: JsValue)
        ensures
            final(self).stack@ == old(self).stack@.push(value),
            final(self).frames == old(self).frames,
            final(self).environments == old(self).environments,
            final(self).err == old(self).err,
            final(self).runtime_limits == old(self).runtime_limits,
    {
        self.stack.push(value);
    }

    /// Puts `frame` back as the running frame.
    pub fn push_frame(&mut self, frame: CallFrame)
        ensures
            final(self).frames@ == old(self).frames@.push(frame),
            final(self).stack == old(self).stack,
            final(self).environments == old(self).environments,
            final(self).err == old(self).err,
            final(self).runtime_limits == old(self).runtime_limits,
    {
        self.frames.push(frame);
    }

    /// Makes the running frame continue at `pc`.
    pub fn set_pc(&mut self, pc: u32)
        requires
            old(self).has_frame(),
        ensures
            final(self).frames@ == old(self).frames_with(CallFrame { pc, ..old(self).frame() }),
            final(self).stack == old(self).stack,
            final(self).environments == old(self).environments,
            final(self).err == old(self).err,
            final(self).runtime_limits == old(self).runtime_limits,
    {
        let mut frame = self.pop_frame();
        frame.pc = pc;
        self.push_frame(frame);
        assert(self.frames@ =~= old(self).frames_with(CallFrame { pc, ..old(self).frame() }));
    }

    /// Sets how many loop iterations the running frame has done.
    pub fn set_loop_iteration_count(&mut self, count: u64)
        requires
            old(self).has_frame(),
        ensures
            final(self).frames@ == old(self).frames_with(
                CallFrame { loop_iteration_count: count, ..old(self).frame() },
            ),
            final(self).stack == old(self).stack,
            final(self).environments == old(self).environments,
            final(self).err == old(self).err,
            final(self).runtime_limits == old(self).runtime_limits,
    {
        let mut frame = self.pop_frame();
        frame.loop_iteration_count = count;
        self.push_frame(frame);
        assert(self.frames@ =~= old(self).frames_with(
            CallFrame { loop_iteration_count: count, ..old(self).frame() },
        ));
    }

    /// Enters a try block: pushes `entry` onto the running frame's try stack.
    pub fn push_try_entry(&mut self, entry: TryStackEntry)
        requires
            old(self).has_frame(),
        ensures
            final(self).frames.len() == old(self).frames.len(),
            final(self).frames@ == old(self).frames_with(final(self).frame()),
            final(self).frame() == (CallFrame { try_stack: final(self).frame().try_stack, ..old(self).frame() }),
            final(self).frame().try_stack@ == old(self).frame().try_stack@.push(entry),
            final(self).stack == old(self).stack,
            final(self).environments == old(self).environments,
            final(self).err == old(self).err,
            final(self).runtime_limits == old(self).runtime_limits,
    {
        let mut frame = self.pop_frame();
        frame.try_stack.push(entry);
        self.push_frame(frame);
        assert(self.frames@ =~= old(self).frames_with(self.frame()));
    }

    /// Leaves the innermost try block of the running frame.
    pub fn pop_try_entry(&mut self) -> (entry: TryStackEntry)
        requires
            old(self).has_frame(),
            old(self).frame().try_stack.len() > 0,
        ensures
            entry == old(self).frame().try_stack@.last(),
            final(self).frames.len() == old(self).frames.len(),
            final(self).frames@ == old(self).frames_with(final(self).frame()),
            final(self).frame() == (CallFrame { try_stack: final(self).frame().try_stack, ..old(self).frame() }),
            final(self).frame().try_stack@ == old(self).frame().try_stack@.drop_last(),
            final(self).stack == old(self).stack,
            final(self).environments == old(self).environments,
            final(self).err == old(self).err,
            final(self).runtime_limits == old(self).runtime_limits,
    {
        let mut frame = self.pop_frame();
        let entry = frame.try_stack.pop().unwrap();
        self.push_frame(frame);
        assert(self.frames@ =~= old(self).frames_with(self.frame()));
        entry
    }

    /// Sends the throw to the innermost try block of the running frame: its
    /// catch runs next, with the value and environment stacks cut back to
    /// their heights when the try block was entered. Without a try block the
    /// throw completes the frame.
    pub fn unwind(&mut self) -> (r: CompletionType)
        requires
            old(self).has_frame(),
        ensures
            unwound(old(self).frames@, old(self).stack@, old(self).environments@, *final(self), r),
            final(self).err == old(self).err,
            final(self).runtime_limits == old(self).runtime_limits,
    {
        let mut frame = self.pop_frame();
        if frame.try_stack.len() > 0 {
            let try_entry = frame.try_stack.pop().unwrap();
            let catch_address = try_entry.catch();
            let env_fp = try_entry.env_fp() as usize;
            let fp = try_entry.fp() as usize;
            frame.pc = catch_address;
            self.push_frame(frame);
            self.environments.truncate(env_fp);
            self.stack.truncate(fp);
            proof {
                assert(self.frame() == frame);
                assert(self.frames@ =~= old(self).frames@.update(
                    old(self).frames@.len() - 1,
                    self.frame(),
                ));
            }
            CompletionType::Normal
        } else {
            self.push_frame(frame);
            proof {
                assert(self.frames@ =~= old(self).frames@);
                assert(self.frames@ =~= old(self).frames@.update(
                    old(self).frames@.len() - 1,
                    self.frame(),
                ));
            }
            CompletionType::Throw
        }
    }
}

/// `s` cut to its first `n` items, or `s` itself when it is not longer.
pub open spec fn truncated<T>(s: Seq<T>, n: int) -> Seq<T> {
    if n <= s.len() {
        s.subrange(0, n)
    } else {
        s
    }
}

/// Whether `after` is what a throw leaves of the frames, value stack and
/// environment stack before it, and `r` how it completes: caught by the
/// innermost try block of the running frame, or completing the frame as a
/// throw when there is none.
pub open spec fn unwound(
    frames: Seq<CallFrame>,
    stack: Seq<JsValue>,
    environments: Seq<DeclarativeEnvironment>,
    after: Vm,
    r: CompletionType,
) -> bool {
    let frame = frames.last();
    let try_stack = frame.try_stack@;
    &&& after.frames.len() == frames.len()
    &&& after.frames@ == frames.update(frames.len() - 1, after.frame())
    &&& if try_stack.len() > 0 {
        let entry = try_stack.last();
        &&& r == CompletionType::Normal
        &&& after.frame() == CallFrame { pc: entry.catch, try_stack: after.frame().try_stack, ..frame }
        &&& after.frame().try_stack@ == try_stack.drop_last()
        &&& after.environments@ == truncated(environments, entry.env_fp as int)
        &&& after.stack@ == truncated(stack, entry.fp as int)
    } else {
        &&& r == CompletionType::Throw
        &&& after.frame() == frame
        &&& after.environments@ == environments
        &&& after.stack@ == stack
    }
}

} // verus!
