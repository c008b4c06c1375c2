use boa_engine::bytecompiler::{ByteCompiler, DUMMY_ADDRESS};
use boa_engine::interner::Sym;
use boa_engine::jump_control::{JumpControlInfoFlags, JumpRecordKind};
use boa_engine::opcode::Opcode;
use boa_engine::statement::JumpRecordAction;
use boa_engine::syntax::{Break, Continue};

fn sym(i: usize) -> Sym {
    Sym::new(i).unwrap()
}

#[test]
fn unlabelled_break_inside_try_finally() {
    let mut c = ByteCompiler::new();
    c.push_loop_control_info(None, 0, false);
    c.current_open_environments_count = 1;
    c.push_try_control_info(true, 0, false);
    c.current_open_environments_count = 2;
    let actions = c.break_jump_record_actions(&Break::new(None));
    assert_eq!(
        actions,
        vec![
            JumpRecordAction::Transfter { index: 0 },
            JumpRecordAction::CreateJump,
            JumpRecordAction::PopEnvironments { count: 1 },
            JumpRecordAction::Transfter { index: 1 },
            JumpRecordAction::CreateJump,
            JumpRecordAction::HandleFinally { value: 1 },
            JumpRecordAction::PopEnvironments { count: 1 },
        ]
    );
}

#[test]
fn break_in_finally_does_not_handle_it_again() {
    let mut c = ByteCompiler::new();
    c.push_switch_control_info(None, 0, false);
    c.push_try_control_info(true, 0, false);
    c.jump_info[1].flags.set(JumpControlInfoFlags::IN_FINALLY, true);
    let actions = c.break_jump_record_actions(&Break::new(None));
    assert_eq!(
        actions,
        vec![
            JumpRecordAction::Transfter { index: 0 },
            JumpRecordAction::CreateJump,
            JumpRecordAction::PopEnvironments { count: 0 },
            JumpRecordAction::PopEnvironments { count: 0 },
        ]
    );
}

#[test]
fn labelled_break_closes_iterators_it_leaves() {
    let mut c = ByteCompiler::new();
    c.push_labelled_control_info(sym(3), 0, false);
    c.push_loop_control_info_for_await_of_loop(None, 0, false);
    let actions = c.break_jump_record_actions(&Break::new(Some(sym(3))));
    assert_eq!(
        actions,
        vec![
            JumpRecordAction::Transfter { index: 0 },
            JumpRecordAction::CreateJump,
            JumpRecordAction::PopEnvironments { count: 0 },
            JumpRecordAction::CloseIterator { is_async: true },
            JumpRecordAction::PopEnvironments { count: 0 },
        ]
    );
}

#[test]
fn break_without_target_walks_the_whole_stack() {
    let mut c = ByteCompiler::new();
    c.push_labelled_control_info(sym(3), 0, false);
    let actions = c.break_jump_record_actions(&Break::new(None));
    assert_eq!(actions, vec![JumpRecordAction::PopEnvironments { count: 0 }]);
}

#[test]
fn continue_targets_the_innermost_loop_or_label() {
    let mut c = ByteCompiler::new();
    c.push_loop_control_info(Some(sym(2)), 0, false);
    c.push_switch_control_info(None, 0, false);
    c.push_loop_control_info(None, 0, false);
    c.push_labelled_control_info(sym(4), 0, false);
    assert_eq!(c.continue_jump_info_target_index(&Continue::new(None)), 2);
    assert_eq!(c.continue_jump_info_target_index(&Continue::new(Some(sym(2)))), 0);
    assert_eq!(c.continue_jump_info_target_index(&Continue::new(Some(sym(4)))), 3);
}

#[test]
fn continue_closes_environments_and_iterators_then_jumps() {
    let mut c = ByteCompiler::new();
    c.push_loop_control_info(Some(sym(2)), 7, false);
    c.current_open_environments_count = 1;
    c.push_loop_control_info_for_of_in_loop(None, 9, false);
    c.current_open_environments_count = 3;
    c.compile_continue(&Continue::new(Some(sym(2))), false);
    assert_eq!(
        c.bytecode,
        vec![
            Opcode::PopEnvironment.to_word(),
            Opcode::PopEnvironment.to_word(),
            Opcode::IteratorClose.to_word(),
            Opcode::PopEnvironment.to_word(),
            Opcode::Continue.to_word(),
            DUMMY_ADDRESS,
        ]
    );
    assert_eq!(c.jump_info[0].jumps.len(), 1);
    let jump = c.jump_info[0].jumps[0];
    assert_eq!(jump.kind, JumpRecordKind::Continue);
    assert_eq!(jump.address.index, 5);
    assert_eq!(jump.label(), Some(sym(2)));
    assert_eq!(jump.target_index(), None);
    c.pop_loop_control_info();
    c.pop_loop_control_info();
    assert_eq!(c.bytecode[5], 7);
}

#[test]
fn continue_through_finally_is_recorded_in_the_try() {
    let mut c = ByteCompiler::new();
    c.push_loop_control_info(None, 0, false);
    c.push_try_control_info(true, 0, false);
    c.compile_continue(&Continue::new(None), false);
    assert_eq!(
        c.bytecode,
        vec![
            Opcode::PushInt32.to_word(),
            1,
            Opcode::PushFalse.to_word(),
            Opcode::Continue.to_word(),
            DUMMY_ADDRESS,
        ]
    );
    assert!(c.jump_info[0].jumps.is_empty());
    let jump = c.jump_info[1].jumps[0];
    assert_eq!(jump.address.index, 4);
    assert_eq!(jump.target_index(), Some(0));
}

#[test]
fn compile_break_to_the_loop_around() {
    let mut c = ByteCompiler::new();
    c.push_loop_control_info(None, 0, false);
    c.current_open_environments_count = 1;
    c.compile_break(&Break::new(None), false);
    assert_eq!(c.bytecode, vec![Opcode::PopEnvironment.to_word(), Opcode::Jump.to_word(), DUMMY_ADDRESS]);
    assert_eq!(c.jump_info[0].jumps.len(), 1);
    let r = c.jump_info[0].jumps[0];
    assert_eq!(r.kind, JumpRecordKind::Break);
    assert_eq!(r.label, None);
    assert_eq!(r.address.index, 2);
    assert_eq!(r.target_index, None);
    assert_eq!(c.current_open_environments_count, 1);
}

#[test]
fn compile_break_stops_at_the_finally_it_passes() {
    let mut c = ByteCompiler::new();
    c.push_loop_control_info(None, 0, false);
    c.current_open_environments_count = 1;
    c.push_try_control_info(true, 0, false);
    c.current_open_environments_count = 2;
    c.compile_break(&Break::new(None), false);
    assert_eq!(
        c.bytecode,
        vec![
            Opcode::PopEnvironment.to_word(),
            Opcode::PushInt32.to_word(),
            1,
            Opcode::PushFalse.to_word(),
            Opcode::Jump.to_word(),
            DUMMY_ADDRESS,
        ]
    );
    assert!(c.jump_info[0].jumps.is_empty());
    assert_eq!(c.jump_info[1].jumps.len(), 1);
    let r = c.jump_info[1].jumps[0];
    assert_eq!(r.kind, JumpRecordKind::Break);
    assert_eq!(r.address.index, 5);
    assert_eq!(r.target_index, Some(0));
}

#[test]
fn compile_labelled_break_closes_iterators_then_jumps() {
    let mut c = ByteCompiler::new();
    c.push_labelled_control_info(sym(3), 0, false);
    c.push_loop_control_info_for_await_of_loop(None, 0, false);
    c.compile_break(&Break::new(Some(sym(3))), false);
    assert_eq!(
        c.bytecode,
        vec![Opcode::AsyncIteratorClose.to_word(), Opcode::Jump.to_word(), DUMMY_ADDRESS]
    );
    assert!(c.jump_info[1].jumps.is_empty());
    let r = c.jump_info[0].jumps[0];
    assert_eq!(r.label, Some(sym(3)));
    assert_eq!(r.address.index, 2);
    assert_eq!(r.target_index, None);
}

#[test]
fn break_closes_every_environment_since_its_target_and_stops_at_each_finally() {
    let mut c = ByteCompiler::new();
    c.push_loop_control_info(None, 0, false);
    c.current_open_environments_count = 1;
    c.push_try_control_info(true, 0, false);
    c.current_open_environments_count = 2;
    c.push_try_control_info(true, 0, false);
    c.current_open_environments_count = 3;
    let actions = c.break_jump_record_actions(&Break::new(None));
    let closed: u32 = actions
        .iter()
        .map(|a| match a {
            JumpRecordAction::PopEnvironments { count } => *count,
            _ => 0,
        })
        .sum();
    assert_eq!(closed, 3);
    let transfers: Vec<u32> = actions
        .iter()
        .filter_map(|a| match a {
            JumpRecordAction::Transfter { index } => Some(*index),
            _ => None,
        })
        .collect();
    assert_eq!(transfers, vec![0, 1, 2]);
}

#[test]
fn continue_stops_at_the_innermost_finally() {
    let mut c = ByteCompiler::new();
    c.push_loop_control_info(None, 0, false);
    c.push_try_control_info(true, 0, false);
    c.push_try_control_info(true, 0, false);
    c.compile_continue(&Continue::new(None), false);
    assert!(c.jump_info[0].jumps.is_empty());
    assert!(c.jump_info[1].jumps.is_empty());
    assert_eq!(c.jump_info[2].jumps.len(), 1);
    assert_eq!(c.jump_info[2].jumps[0].target_index, Some(0));
}
