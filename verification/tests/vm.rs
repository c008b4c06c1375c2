use boa_engine::call_frame::{CallFrame, GeneratorResumeKind, TryStackEntry};
use boa_engine::control_flow::{
    Break, Continue, Exception, LabelledEnd, LabelledStart, ReThrow, Throw, ThrowNewTypeError,
    TryEnd, TryStart,
};
use boa_engine::loop_ops::{IteratorLoopStart, LoopContinue, LoopEnd, LoopStart};
use boa_engine::text::decimal_string;
use boa_engine::vm::{
    CodeBlock, CompletionType, DeclarativeEnvironment, JsError, JsNativeErrorKind, JsValue,
    RuntimeLimits, Vm,
};

fn vm_with(bytecode: Vec<u32>, literals: Vec<JsValue>) -> Vm {
    Vm {
        frames: vec![CallFrame::new(CodeBlock { bytecode, literals })],
        stack: Vec::new(),
        environments: Vec::new(),
        err: None,
        runtime_limits: RuntimeLimits { loop_iteration_limit: 2 },
    }
}

fn env() -> DeclarativeEnvironment {
    DeclarativeEnvironment { bindings: Vec::new() }
}

fn is_int(v: &JsValue, n: i32) -> bool {
    matches!(v, JsValue::Integer(m) if *m == n)
}

#[test]
fn break_and_continue_jump_to_their_operand() {
    let mut vm = vm_with(vec![42, 7], Vec::new());
    assert!(matches!(Break::execute(&mut vm), Ok(CompletionType::Normal)));
    assert_eq!(vm.frames[0].pc, 42);
    vm.frames[0].pc = 1;
    assert!(matches!(Continue::execute(&mut vm), Ok(CompletionType::Normal)));
    assert_eq!(vm.frames[0].pc, 7);
}

#[test]
fn labelled_start_skips_its_operand() {
    let mut vm = vm_with(vec![9, 9], Vec::new());
    assert!(matches!(LabelledStart::execute(&mut vm), Ok(CompletionType::Normal)));
    assert_eq!(vm.frames[0].pc, 1);
    assert!(matches!(LabelledEnd::execute(&mut vm), Ok(CompletionType::Normal)));
    assert_eq!(vm.frames[0].pc, 1);
}

#[test]
fn throw_inside_try_goes_to_catch() {
    let mut vm = vm_with(vec![30, 40], Vec::new());
    vm.stack.push(JsValue::Integer(1));
    vm.environments.push(env());
    assert!(matches!(TryStart::execute(&mut vm), Ok(CompletionType::Normal)));
    assert_eq!(vm.frames[0].pc, 2);
    assert_eq!(vm.frames[0].try_stack, vec![TryStackEntry::new(30, 1, 1)]);
    vm.stack.push(JsValue::Integer(2));
    vm.environments.push(env());
    vm.stack.push(JsValue::Integer(3));
    assert!(matches!(Throw::execute(&mut vm), Ok(CompletionType::Normal)));
    assert_eq!(vm.frames[0].pc, 30);
    assert!(vm.frames[0].try_stack.is_empty());
    assert_eq!(vm.stack.len(), 1);
    assert!(is_int(&vm.stack[0], 1));
    assert_eq!(vm.environments.len(), 1);
    assert!(is_int(vm.err.as_ref().unwrap(), 3));
    assert!(matches!(Exception::execute(&mut vm), Ok(CompletionType::Normal)));
    assert!(vm.err.is_none());
    assert_eq!(vm.stack.len(), 2);
    assert!(is_int(&vm.stack[1], 3));
}

#[test]
fn throw_outside_try_completes_as_throw() {
    let mut vm = vm_with(Vec::new(), Vec::new());
    vm.stack.push(JsValue::Boolean(true));
    assert!(matches!(Throw::execute(&mut vm), Ok(CompletionType::Throw)));
    assert!(vm.stack.is_empty());
    assert!(matches!(vm.err, Some(JsValue::Boolean(true))));
    assert!(matches!(ReThrow::execute(&mut vm), Ok(CompletionType::Throw)));
    assert!(matches!(vm.err, Some(JsValue::Boolean(true))));
}

#[test]
fn rethrow_goes_to_the_enclosing_catch() {
    let mut vm = vm_with(Vec::new(), Vec::new());
    vm.frames[0].try_stack.push(TryStackEntry::new(12, 0, 0));
    vm.stack.push(JsValue::Null);
    vm.err = Some(JsValue::Undefined);
    assert!(matches!(ReThrow::execute(&mut vm), Ok(CompletionType::Normal)));
    assert_eq!(vm.frames[0].pc, 12);
    assert!(vm.stack.is_empty());
    assert!(matches!(vm.err, Some(JsValue::Undefined)));
}

#[test]
fn try_end_leaves_the_try_block() {
    let mut vm = vm_with(vec![5, 6], Vec::new());
    TryStart::execute(&mut vm).ok().unwrap();
    assert!(matches!(TryEnd::execute(&mut vm), Ok(CompletionType::Normal)));
    assert!(vm.frames[0].try_stack.is_empty());
}

#[test]
fn throw_new_type_error_uses_the_literal() {
    let mut vm = vm_with(vec![1], vec![JsValue::Null, JsValue::String("bad".to_string())]);
    match ThrowNewTypeError::execute(&mut vm) {
        Err(JsError::Native(e)) => {
            assert_eq!(e.kind, JsNativeErrorKind::Type);
            assert_eq!(e.message, "bad");
        }
        _ => panic!("expected a type error"),
    }
    assert_eq!(vm.frames[0].pc, 1);
}

#[test]
fn loop_continue_counts_until_the_limit() {
    let mut vm = vm_with(Vec::new(), Vec::new());
    for expected in 1..=3 {
        assert!(matches!(LoopContinue::execute(&mut vm), Ok(CompletionType::Normal)));
        assert_eq!(vm.frames[0].loop_iteration_count, expected);
    }
    match LoopContinue::execute(&mut vm) {
        Err(JsError::Native(e)) => {
            assert_eq!(e.kind, JsNativeErrorKind::RuntimeLimit);
            assert_eq!(e.message, "Maximum loop iteration limit 2 exceeded");
        }
        _ => panic!("expected a runtime limit error"),
    }
    assert_eq!(vm.frames[0].loop_iteration_count, 3);
}

#[test]
fn loop_markers_change_nothing() {
    let mut vm = vm_with(vec![1, 2], Vec::new());
    assert!(matches!(LoopStart::execute(&mut vm), Ok(CompletionType::Normal)));
    assert!(matches!(IteratorLoopStart::execute(&mut vm), Ok(CompletionType::Normal)));
    assert!(matches!(LoopEnd::execute(&mut vm), Ok(CompletionType::Normal)));
    assert_eq!(vm.frames[0].pc, 0);
}

#[test]
fn call_frame_creation() {
    let frame = CallFrame::new(CodeBlock { bytecode: vec![1, 2], literals: Vec::new() }).with_argument_count(3);
    assert_eq!(frame.argument_count, 3);
    assert_eq!(frame.pc, 0);
    assert_eq!(frame.code_block().bytecode, vec![1, 2]);
    assert_eq!(frame.generator_resume_kind, GeneratorResumeKind::Normal);
    assert_eq!(GeneratorResumeKind::default(), GeneratorResumeKind::Normal);
    let mut frame = frame;
    frame.set_frame_pointer(8);
    assert_eq!(frame.fp, 8);
    let entry = TryStackEntry::new(1, 2, 3);
    assert_eq!((entry.catch(), entry.fp(), entry.env_fp()), (1, 2, 3));
}

#[test]
fn decimal_numerals() {
    assert_eq!(decimal_string(0), "0");
    assert_eq!(decimal_string(1907), "1907");
    assert_eq!(decimal_string(u64::MAX), u64::MAX.to_string());
}
