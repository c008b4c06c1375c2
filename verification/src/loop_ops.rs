//! The loop instructions: markers, and the count of loop iterations against
//! the runtime limit.

use vstd::prelude::*;

use crate::call_frame::CallFrame;
use crate::text::{decimal, decimal_string};
use crate::vm::{CompletionType, JsError, JsNativeError, JsNativeErrorKind, JsResult, Vm};

verus! {

/// `IteratorLoopStart`: does nothing when run; it marks where an iterator
/// loop starts in the bytecode.
pub struct IteratorLoopStart;

impl IteratorLoopStart {
    pub fn execute(vm: &mut Vm) -> (r: JsResult<CompletionType>)
        ensures
            r matches Ok(CompletionType::Normal),
            *final(vm) == *old(vm),
    {
        Ok(CompletionType::Normal)
    }
}

/// `LoopStart`: does nothing when run; it marks where a loop starts in the
/// bytecode.
pub struct LoopStart;

impl LoopStart {
    pub fn execute(vm: &mut Vm) -> (r: JsResult<CompletionType>)
        ensures
            r matches Ok(CompletionType::Normal),
            *final(vm) == *old(vm),
    {
        Ok(CompletionType::Normal)
    }
}

/// The message of the error raised when a loop exceeds `max` iterations.
pub open spec fn loop_limit_message(max: u64) -> Seq<char> {
    "Maximum loop iteration limit "@ + decimal(max as nat) + " exceeded"@
}

/// `LoopContinue`: counts one more iteration of the running frame's loop,
/// and raises a runtime-limit error when the count already exceeds the
/// limit.
pub struct LoopContinue;

impl LoopContinue {
    pub fn execute(vm: &mut Vm) -> (r: JsResult<CompletionType>)
        requires
            old(vm).has_frame(),
        ensures
            old(vm).frame().loop_iteration_count > old(vm).runtime_limits.loop_iteration_limit ==> {
                &&& r matches Err(JsError::Native(e)) && e.kind == JsNativeErrorKind::RuntimeLimit
                    && e.message@ == loop_limit_message(old(vm).runtime_limits.loop_iteration_limit)
                &&& *final(vm) == *old(vm)
            },
            old(vm).frame().loop_iteration_count <= old(vm).runtime_limits.loop_iteration_limit ==> {
                &&& r matches Ok(CompletionType::Normal)
                &&& final(vm).frames@ == old(vm).frames_with(
                    CallFrame {
                        loop_iteration_count: if old(vm).frame().loop_iteration_count == u64::MAX {
                            0
                        } else {
                            (old(vm).frame().loop_iteration_count + 1) as u64
                        },
                        ..old(vm).frame()
                    },
                )
                &&& final(vm).stack == old(vm).stack
                &&& final(vm).environments == old(vm).environments
                &&& final(vm).err == old(vm).err
                &&& final(vm).runtime_limits == old(vm).runtime_limits
            },
    {
        let last = vm.frames.len() - 1;
        let previous_iteration_count = vm.frames[last].loop_iteration_count;
        let max = vm.runtime_limits.loop_iteration_limit();
        if previous_iteration_count > max {
            let mut message = String::from_str("Maximum loop iteration limit ");
            let number = decimal_string(max);
            message.append(number.as_str());
            message.append(" exceeded");
            proof {
                reveal_strlit("Maximum loop iteration limit ");
                reveal_strlit(" exceeded");
            }
            return Err(JsError::Native(JsNativeError::runtime_limit().with_message(message)));
        }
        vm.set_loop_iteration_count(previous_iteration_count.wrapping_add(1));
        Ok(CompletionType::Normal)
    }
}

/// `LoopEnd`: does nothing when run; it marks where a loop ends in the
/// bytecode.
pub struct LoopEnd;

impl LoopEnd {
    pub fn execute(vm: &mut Vm) -> (r: JsResult<CompletionType>)
        ensures
            r matches Ok(CompletionType::Normal),
            *final(vm) == *old(vm),
    {
        Ok(CompletionType::Normal)
    }
}

} // verus!
