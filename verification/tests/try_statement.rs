use boa_engine::bytecompiler::{ByteCompiler, Label, DUMMY_ADDRESS};
use boa_engine::jump_control::{JumpRecord, JumpRecordKind};
use boa_engine::interner::Sym;
use boa_engine::opcode::Opcode;
use boa_engine::syntax::{Block, Catch, Expression, Finally, Statement, Throw, TryStatement};

fn w(op: Opcode) -> u32 {
    op.to_word()
}

fn block(code: Vec<u32>) -> Block {
    Block { code, jumps: Vec::new() }
}

fn jump_block(kind: JumpRecordKind, target_index: Option<usize>) -> Block {
    Block {
        code: vec![w(Opcode::Jump), DUMMY_ADDRESS],
        jumps: vec![JumpRecord::new(kind, None, Label { index: 1 }, target_index)],
    }
}

#[test]
fn try_catch_finally_layout() {
    let mut c = ByteCompiler::new();
    let t = TryStatement::new(
        block(vec![100]),
        Some(Catch { parameter: Some(Sym::new(5).unwrap()), block: block(vec![200]) }),
        Some(Finally { block: block(vec![300]) }),
    );
    c.compile_try(&t, false);
    let expected = vec![
        w(Opcode::TryStart), 9, 18,
        100,
        w(Opcode::TryEnd), w(Opcode::PushZero), w(Opcode::PushFalse),
        w(Opcode::Jump), 18,
        w(Opcode::PushDeclarativeEnvironment), 0, w(Opcode::Exception),
        w(Opcode::DefInitLet), 5,
        200,
        w(Opcode::PopEnvironment), w(Opcode::PushZero), w(Opcode::PushFalse),
        w(Opcode::FinallyStart), 26, w(Opcode::GetReturnValue),
        300,
        w(Opcode::SetReturnValue), w(Opcode::JumpIfFalse), 26, w(Opcode::ReThrow),
        w(Opcode::JumpTable), 29, 0,
    ];
    assert_eq!(c.bytecode, expected);
    assert!(c.jump_info.is_empty());
    assert_eq!(c.compile_environments_count, 1);
    assert_eq!(c.current_open_environments_count, 0);
}

#[test]
fn try_without_catch_or_finally() {
    let mut c = ByteCompiler::new();
    c.push_loop_control_info(None, 0, false);
    let t = TryStatement::new(block(vec![7]), None, None);
    c.compile_try(&t, true);
    assert_eq!(
        c.bytecode,
        vec![
            w(Opcode::TryStart), 7, DUMMY_ADDRESS,
            7,
            w(Opcode::TryEnd),
            w(Opcode::Jump), 9,
            w(Opcode::Exception), w(Opcode::PushTrue),
        ]
    );
    assert_eq!(c.jump_info.len(), 1);
    assert!(c.jump_info[0].jumps.is_empty());
    assert_eq!(c.compile_environments_count, 0);
}

#[test]
fn try_finally_without_catch_throws_again() {
    let mut c = ByteCompiler::new();
    let t = TryStatement::new(block(Vec::new()), None, Some(Finally { block: block(Vec::new()) }));
    c.compile_try(&t, false);
    assert_eq!(
        c.bytecode,
        vec![
            w(Opcode::TryStart), 8, 10,
            w(Opcode::TryEnd), w(Opcode::PushZero), w(Opcode::PushFalse),
            w(Opcode::Jump), 10,
            w(Opcode::Exception), w(Opcode::PushTrue),
            w(Opcode::FinallyStart), 18, w(Opcode::GetReturnValue),
            w(Opcode::SetReturnValue), w(Opcode::JumpIfFalse), 18, w(Opcode::Throw), w(Opcode::ReThrow),
            w(Opcode::JumpTable), 21, 0,
        ]
    );
}

#[test]
fn catch_without_parameter_drops_the_exception() {
    let mut c = ByteCompiler::new();
    c.compile_environments_count = 4;
    c.compile_catch_stmt(&Catch { parameter: None, block: block(vec![1]) }, false, false);
    assert_eq!(
        c.bytecode,
        vec![
            w(Opcode::PushDeclarativeEnvironment), 4, w(Opcode::Exception), w(Opcode::Pop), 1,
            w(Opcode::PopEnvironment),
        ]
    );
    assert_eq!(c.compile_environments_count, 5);
}

#[test]
fn throw_clones_and_compares() {
    let a = Throw::new(Expression::Await(Box::new(Expression::This)));
    let b = a.clone();
    assert!(a == b);
    assert!(a != Throw::new(Expression::NewTarget));
    let statement = Statement::from(b);
    assert!(matches!(statement, Statement::Throw(_)));
}

#[test]
fn try_block_jump_enters_finally_and_leaves_by_jump_table() {
    let mut c = ByteCompiler::new();
    c.push_loop_control_info(None, 0, false);
    let t = TryStatement::new(
        jump_block(JumpRecordKind::Break, Some(0)),
        None,
        Some(Finally { block: block(Vec::new()) }),
    );
    c.compile_try(&t, false);
    assert_eq!(
        c.bytecode,
        vec![
            w(Opcode::TryStart), 10, 12,
            w(Opcode::Jump), 12,
            w(Opcode::TryEnd), w(Opcode::PushZero), w(Opcode::PushFalse),
            w(Opcode::Jump), 12,
            w(Opcode::Exception), w(Opcode::PushTrue),
            w(Opcode::FinallyStart), 20, w(Opcode::GetReturnValue),
            w(Opcode::SetReturnValue), w(Opcode::JumpIfFalse), 20, w(Opcode::Throw), w(Opcode::ReThrow),
            w(Opcode::JumpTable), 24, 1, DUMMY_ADDRESS,
        ]
    );
    assert_eq!(c.jump_info.len(), 1);
    assert_eq!(c.jump_info[0].jumps.len(), 1);
    let r = c.jump_info[0].jumps[0];
    assert_eq!(r.kind, JumpRecordKind::Break);
    assert_eq!(r.address.index, 23);
    assert_eq!(r.target_index, Some(0));
}

#[test]
fn try_without_finally_hands_its_jumps_on() {
    let mut c = ByteCompiler::new();
    c.push_loop_control_info(None, 0, false);
    let t = TryStatement::new(jump_block(JumpRecordKind::Continue, None), None, None);
    c.compile_try(&t, false);
    assert_eq!(
        c.bytecode,
        vec![
            w(Opcode::TryStart), 8, DUMMY_ADDRESS,
            w(Opcode::Jump), DUMMY_ADDRESS,
            w(Opcode::TryEnd),
            w(Opcode::Jump), 10,
            w(Opcode::Exception), w(Opcode::PushTrue),
        ]
    );
    assert_eq!(c.jump_info.len(), 1);
    assert_eq!(c.jump_info[0].jumps.len(), 1);
    let r = c.jump_info[0].jumps[0];
    assert_eq!(r.kind, JumpRecordKind::Continue);
    assert_eq!(r.address.index, 4);
    assert_eq!(r.target_index, None);
}

#[test]
fn finally_block_jumps_go_to_the_statement_around() {
    let mut c = ByteCompiler::new();
    c.push_loop_control_info(None, 0, false);
    let t = TryStatement::new(
        block(Vec::new()),
        None,
        Some(Finally { block: jump_block(JumpRecordKind::Break, None) }),
    );
    c.compile_try(&t, false);
    assert_eq!(
        c.bytecode,
        vec![
            w(Opcode::TryStart), 8, 10,
            w(Opcode::TryEnd), w(Opcode::PushZero), w(Opcode::PushFalse),
            w(Opcode::Jump), 10,
            w(Opcode::Exception), w(Opcode::PushTrue),
            w(Opcode::FinallyStart), 20, w(Opcode::GetReturnValue),
            w(Opcode::Jump), DUMMY_ADDRESS,
            w(Opcode::SetReturnValue), w(Opcode::JumpIfFalse), 20, w(Opcode::Throw), w(Opcode::ReThrow),
            w(Opcode::JumpTable), 23, 0,
        ]
    );
    assert_eq!(c.jump_info.len(), 1);
    assert_eq!(c.jump_info[0].jumps.len(), 1);
    let r = c.jump_info[0].jumps[0];
    assert_eq!(r.kind, JumpRecordKind::Break);
    assert_eq!(r.address.index, 14);
    assert_eq!(r.target_index, None);
}
