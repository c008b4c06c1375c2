//! The control-flow instructions: jumps, labelled blocks, throws and try
//! blocks.

use vstd::prelude::*;

use crate::call_frame::{CallFrame, TryStackEntry};
use crate::vm::{unwound, CompletionType, JsError, JsNativeError, JsNativeErrorKind, JsResult, JsValue, Vm};

verus! {

/// Whether `after` is `before` with the running frame continuing at `pc`.
pub open spec fn jumped(before: Vm, after: Vm, pc: u32) -> bool {
    &&& after.frames@ == before.frames_with(CallFrame { pc, ..before.frame() })
    &&& after.stack == before.stack
    &&& after.environments == before.environments
    &&& after.err == before.err
    &&& after.runtime_limits == before.runtime_limits
}

/// Whether `after` is `before` with a try block entered: its catch starts at
/// the operand at the program counter, and it records the current heights of
/// the value and environment stacks; the program counter passes both
/// operands.
pub open spec fn try_started(before: Vm, after: Vm) -> bool {
    &&& after.frames.len() == before.frames.len()
    &&& after.frames@ == before.frames_with(after.frame())
    &&& after.frame() == (CallFrame {
        pc: (before.frame().pc + 2) as u32,
        try_stack: after.frame().try_stack,
        ..before.frame()
    })
    &&& after.frame().try_stack@ == before.frame().try_stack@.push(
        TryStackEntry {
            catch: before.next_word(),
            fp: before.stack.len() as u32,
            env_fp: before.environments.len() as u32,
        },
    )
    &&& after.stack == before.stack
    &&& after.environments == before.environments
    &&& after.err == before.err
    &&& after.runtime_limits == before.runtime_limits
}

/// Whether `after` is `before` with the innermost try block left.
pub open spec fn try_ended(before: Vm, after: Vm) -> bool {
    &&& after.frames.len() == before.frames.len()
    &&& after.frames@ == before.frames_with(after.frame())
    &&& after.frame() == (CallFrame { try_stack: after.frame().try_stack, ..before.frame() })
    &&& after.frame().try_stack@ == before.frame().try_stack@.drop_last()
    &&& after.stack == before.stack
    &&& after.environments == before.environments
    &&& after.err == before.err
    &&& after.runtime_limits == before.runtime_limits
}

/// Whether `after` is what throwing the value on top of the stack of
/// `before` leaves, completing as `completion`.
pub open spec fn threw(before: Vm, after: Vm, completion: CompletionType) -> bool {
    &&& unwound(before.frames@, before.stack@.drop_last(), before.environments@, after, completion)
    &&& after.err == Some(before.stack@.last())
    &&& after.runtime_limits == before.runtime_limits
}

/// Whether `after` is `before` with the pending exception moved onto the
/// stack.
pub open spec fn exception_taken(before: Vm, after: Vm) -> bool {
    &&& after.err.is_none()
    &&& after.stack@ == before.stack@.push(before.err.unwrap())
    &&& after.frames == before.frames
    &&& after.environments == before.environments
    &&& after.runtime_limits == before.runtime_limits
}

/// `Break`: jumps to its operand.
pub struct Break;

impl Break {
    pub fn execute(vm: &mut Vm) -> (r: JsResult<CompletionType>)
        requires
            old(vm).can_read(),
        ensures
            r matches Ok(CompletionType::Normal),
            jumped(*old(vm), *final(vm), old(vm).next_word()),
    {
        let jump_address = vm.read_u32();
        vm.set_pc(jump_address);
        assert(vm.frames@ =~= old(vm).frames_with(CallFrame { pc: jump_address, ..old(vm).frame() }));
        Ok(CompletionType::Normal)
    }
}

/// `Continue`: jumps to its operand.
pub struct Continue;

impl Continue {
    pub fn execute(vm: &mut Vm) -> (r: JsResult<CompletionType>)
        requires
            old(vm).can_read(),
        ensures
            r matches Ok(CompletionType::Normal),
            jumped(*old(vm), *final(vm), old(vm).next_word()),
    {
        let jump_address = vm.read_u32();
        vm.set_pc(jump_address);
        assert(vm.frames@ =~= old(vm).frames_with(CallFrame { pc: jump_address, ..old(vm).frame() }));
        Ok(CompletionType::Normal)
    }
}

/// `LabelledStart`: the start of a labelled block; skips its operand.
pub struct LabelledStart;

impl LabelledStart {
    pub fn execute(vm: &mut Vm) -> (r: JsResult<CompletionType>)
        requires
            old(vm).can_read(),
        ensures
            r matches Ok(CompletionType::Normal),
            jumped(*old(vm), *final(vm), (old(vm).frame().pc + 1) as u32),
    {
        let _end = vm.read_u32();
        Ok(CompletionType::Normal)
    }
}

/// `LabelledEnd`: does nothing when run; it marks where a labelled block
/// ends in the bytecode.
pub struct LabelledEnd;

impl LabelledEnd {
    pub fn execute(vm: &mut Vm) -> (r: JsResult<CompletionType>)
        ensures
            r matches Ok(CompletionType::Normal),
            *final(vm) == *old(vm),
    {
        Ok(CompletionType::Normal)
    }
}

/// `Throw`: throws the value on top of the stack.
pub struct Throw;

impl Throw {
    pub fn execute(vm: &mut Vm) -> (r: JsResult<CompletionType>)
        requires
            old(vm).has_frame(),
            old(vm).stack.len() > 0,
        ensures
            r matches Ok(c) && threw(*old(vm), *final(vm), c),
    {
        let error = vm.pop();
        vm.err = Some(error);
        let completion = vm.unwind();
        Ok(completion)
    }
}

/// `ReThrow`: throws the pending exception again.
pub struct ReThrow;

impl ReThrow {
    pub fn execute(vm: &mut Vm) -> (r: JsResult<CompletionType>)
        requires
            old(vm).has_frame(),
            old(vm).err.is_some(),
        ensures
            r matches Ok(c) && unwound(
                old(vm).frames@,
                old(vm).stack@,
                old(vm).environments@,
                *final(vm),
                c,
            ),
            final(vm).err == old(vm).err,
            final(vm).runtime_limits == old(vm).runtime_limits,
    {
        let completion = vm.unwind();
        Ok(completion)
    }
}

/// `Exception`: pushes the pending exception onto the stack.
pub struct Exception;

impl Exception {
    pub fn execute(vm: &mut Vm) -> (r: JsResult<CompletionType>)
        requires
            old(vm).err.is_some(),
        ensures
            r matches Ok(CompletionType::Normal),
            exception_taken(*old(vm), *final(vm)),
    {
        let error = vm.err.take().unwrap();
        vm.push(error);
        Ok(CompletionType::Normal)
    }
}

/// `ThrowNewTypeError`: raises a `TypeError` whose message is the string
/// literal its operand names.
pub struct ThrowNewTypeError;

impl ThrowNewTypeError {
    pub fn execute(vm: &mut Vm) -> (r: JsResult<CompletionType>)
        requires
            old(vm).can_read(),
            old(vm).next_word() < old(vm).frame().code_block.literals.len(),
            old(vm).frame().code_block.literals@[old(vm).next_word() as int] is String,
        ensures
            r matches Err(JsError::Native(e)) && e.kind == JsNativeErrorKind::Type && e.message
                == old(vm).frame().code_block.literals@[old(vm).next_word() as int]->String_0,
            jumped(*old(vm), *final(vm), (old(vm).frame().pc + 1) as u32),
    {
        let index = vm.read_u32();
        let last = vm.frames.len() - 1;
        let msg = match &vm.frames[last].code_block.literals[index as usize] {
            JsValue::String(s) => s.clone(),
            _ => String::new(),
        };
        Err(JsError::Native(JsNativeError::typ().with_message(msg)))
    }
}

/// `TryStart`: enters a try block whose catch starts at its first operand.
pub struct TryStart;

impl TryStart {
    pub fn execute(vm: &mut Vm) -> (r: JsResult<CompletionType>)
        requires
            old(vm).has_frame(),
            old(vm).frame().pc + 1 < old(vm).frame().code_block.bytecode.len(),
            old(vm).frame().pc + 1 < u32::MAX,
        ensures
            r matches Ok(CompletionType::Normal),
            try_started(*old(vm), *final(vm)),
    {
        let catch = vm.read_u32();
        let _finally = vm.read_u32();
        assert(vm.frames@ =~= old(vm).frames_with(
            CallFrame { pc: (old(vm).frame().pc + 2) as u32, ..old(vm).frame() },
        ));
        let fp = vm.stack.len() as u32;
        let env_fp = vm.environments.len() as u32;
        vm.push_try_entry(TryStackEntry::new(catch, fp, env_fp));
        assert(vm.frames@ =~= old(vm).frames_with(vm.frame()));
        Ok(CompletionType::Normal)
    }
}

/// `TryEnd`: leaves the innermost try block.
pub struct TryEnd;

impl TryEnd {
    pub fn execute(vm: &mut Vm) -> (r: JsResult<CompletionType>)
        requires
            old(vm).has_frame(),
            old(vm).frame().try_stack.len() > 0,
        ensures
            r matches Ok(CompletionType::Normal),
            try_ended(*old(vm), *final(vm)),
    {
        vm.pop_try_entry();
        Ok(CompletionType::Normal)
    }
}

/// A value thrown right after a try block is entered is caught by it: the
/// catch runs next, with the value and environment stacks and the try stack
/// as they were before the try block, and the thrown value pending; taking
/// the exception then puts the thrown value on top of that stack.
pub proof fn law_throw_in_try_is_caught(
    start: Vm,
    entered: Vm,
    pushed: Vm,
    value: JsValue,
    caught: Vm,
    completion: CompletionType,
    taken: Vm,
)
    requires
        start.has_frame(),
        start.stack.len() <= u32::MAX,
        start.environments.len() <= u32::MAX,
        try_started(start, entered),
        pushed.stack@ == entered.stack@.push(value),
        pushed.frames == entered.frames,
        pushed.environments == entered.environments,
        threw(pushed, caught, completion),
        exception_taken(caught, taken),
    ensures
        completion == CompletionType::Normal,
        caught.frame().pc == start.next_word(),
        caught.frame().try_stack@ == start.frame().try_stack@,
        caught.stack@ == start.stack@,
        caught.environments@ == start.environments@,
        caught.err == Some(value),
        taken.stack@ == start.stack@.push(value),
        taken.frame().try_stack@ == start.frame().try_stack@,
{
    assert(pushed.stack@.drop_last() =~= start.stack@);
    assert(entered.frame() == pushed.frame());
    assert(start.stack@.subrange(0, start.stack.len() as int) =~= start.stack@);
    assert(start.environments@.subrange(0, start.environments.len() as int) =~= start.environments@);
    assert(entered.frame().try_stack@.drop_last() =~= start.frame().try_stack@);
}

/// Leaving a try block right after entering it gives back the try stack as
/// it was.
pub proof fn law_try_end_undoes_try_start(start: Vm, entered: Vm, left: Vm)
    requires
        start.has_frame(),
        start.frame().pc + 2 <= u32::MAX,
        try_started(start, entered),
        try_ended(entered, left),
    ensures
        left.frame().try_stack@ == start.frame().try_stack@,
        left.stack == start.stack,
        left.environments == start.environments,
        left.frame().pc == start.frame().pc + 2,
{
    assert(entered.frame().try_stack@.drop_last() =~= start.frame().try_stack@);
}

} // verus!
