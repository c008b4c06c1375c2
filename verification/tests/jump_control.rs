use boa_engine::bytecompiler::{ByteCompiler, Label, DUMMY_ADDRESS};
use boa_engine::interner::Sym;
use boa_engine::jump_control::{JumpControlInfo, JumpControlInfoFlags, JumpRecordKind};
use boa_engine::opcode::Opcode;

fn word(op: Opcode) -> u32 {
    op.to_word()
}

fn sym(i: usize) -> Sym {
    Sym::new(i).unwrap()
}

/// Emits a `break` or `continue` instruction and records it in the innermost statement.
fn record(c: &mut ByteCompiler, kind: JumpRecordKind, label: Option<Sym>) -> Label {
    let op = match kind {
        JumpRecordKind::Break => Opcode::Break,
        JumpRecordKind::Continue => Opcode::Continue,
    };
    let address = c.emit_opcode_with_operand(op);
    let info = c.current_jump_control_mut().unwrap();
    match kind {
        JumpRecordKind::Break => info.push_break_label(label, address, None),
        JumpRecordKind::Continue => info.push_continue_label(label, address, None),
    }
    address
}

#[test]
fn loop_breaks_go_to_the_end_and_continues_to_the_start() {
    let mut c = ByteCompiler::new();
    c.emit_opcode(Opcode::LoopStart);
    c.push_loop_control_info(None, 0, false);
    let brk = record(&mut c, JumpRecordKind::Break, None);
    let cont = record(&mut c, JumpRecordKind::Continue, None);
    c.emit_opcode(Opcode::LoopEnd);
    let end = c.bytecode.len() as u32;
    c.pop_loop_control_info();
    assert_eq!(brk.index, 2);
    assert_eq!(cont.index, 4);
    assert_eq!(c.bytecode[2], end);
    assert_eq!(c.bytecode[4], 0);
    assert!(c.jump_info.is_empty());
}

#[test]
fn empty_loop_jump_control_is_a_loop() {
    let mut c = ByteCompiler::new();
    c.current_open_environments_count = 3;
    c.push_empty_loop_jump_control(true);
    let info = &c.jump_info[0];
    assert!(info.is_loop());
    assert!(!info.is_switch());
    assert!(!info.is_try_block());
    assert!(info.use_expr());
    assert_eq!(info.start_address(), u32::MAX);
    assert_eq!(info.label(), None);
    assert_eq!(info.current_open_environments_count, 3);
    c.set_jump_control_start_address(17);
    assert_eq!(c.jump_info[0].start_address(), 17);
}

#[test]
fn use_expr_is_inherited() {
    let mut c = ByteCompiler::new();
    assert!(!c.jump_control_info_has_use_expr());
    c.push_loop_control_info(None, 0, true);
    c.push_switch_control_info(None, 0, false);
    assert!(c.jump_control_info_has_use_expr());
    assert!(c.jump_info[1].is_switch());
    c.pop_switch_control_info();
    c.pop_loop_control_info();
    c.push_loop_control_info(None, 0, false);
    assert!(!c.jump_control_info_has_use_expr());
    c.push_labelled_control_info(sym(5), 0, true);
    assert!(c.jump_control_info_has_use_expr());
    assert!(!c.jump_info[0].use_expr());
}

#[test]
fn statement_kinds_are_flagged() {
    let mut c = ByteCompiler::new();
    c.push_loop_control_info_for_of_in_loop(Some(sym(3)), 4, false);
    c.push_loop_control_info_for_await_of_loop(None, 5, false);
    c.push_try_control_info(true, 6, false);
    let for_of = &c.jump_info[0];
    assert!(for_of.is_loop() && for_of.iterator_loop() && !for_of.for_await_of_loop());
    assert_eq!(for_of.label(), Some(sym(3)));
    assert_eq!(for_of.start_address(), 4);
    let for_await = &c.jump_info[1];
    assert!(for_await.is_loop() && for_await.iterator_loop() && for_await.for_await_of_loop());
    let try_info = &c.jump_info[2];
    assert!(try_info.is_try_block() && try_info.has_finally() && !try_info.is_loop());
    assert!(!try_info.in_finally());
    assert_eq!(try_info.flags.bits, JumpControlInfoFlags::TRY_BLOCK | JumpControlInfoFlags::HAS_FINALLY);
}

#[test]
fn labelled_statement_keeps_its_own_jumps_and_passes_on_the_others() {
    let mut c = ByteCompiler::new();
    c.push_loop_control_info(Some(sym(7)), 0, false);
    c.push_labelled_control_info(sym(9), 1, false);
    let own_break = record(&mut c, JumpRecordKind::Break, Some(sym(9)));
    let own_continue = record(&mut c, JumpRecordKind::Continue, Some(sym(9)));
    let foreign = record(&mut c, JumpRecordKind::Continue, Some(sym(7)));
    let end = c.bytecode.len() as u32;
    c.pop_labelled_control_info();
    assert_eq!(c.bytecode[own_break.index as usize], end);
    assert_eq!(c.bytecode[own_continue.index as usize], 1);
    assert_eq!(c.bytecode[foreign.index as usize], DUMMY_ADDRESS);
    assert_eq!(c.jump_info.len(), 1);
    assert_eq!(c.jump_info[0].jumps.len(), 1);
    assert_eq!(c.jump_info[0].jumps[0].address, foreign);
    assert_eq!(c.jump_info[0].jumps[0].label(), Some(sym(7)));
}

#[test]
fn switch_keeps_breaks_and_passes_on_continues() {
    let mut c = ByteCompiler::new();
    c.push_loop_control_info(None, 0, false);
    c.push_switch_control_info(None, 2, false);
    let brk = record(&mut c, JumpRecordKind::Break, None);
    let cont = record(&mut c, JumpRecordKind::Continue, None);
    let end = c.bytecode.len() as u32;
    c.pop_switch_control_info();
    assert_eq!(c.bytecode[brk.index as usize], end);
    assert_eq!(c.bytecode[cont.index as usize], DUMMY_ADDRESS);
    assert_eq!(c.jump_info[0].jumps.len(), 1);
    assert_eq!(c.jump_info[0].jumps[0].kind, JumpRecordKind::Continue);
    c.pop_loop_control_info();
    assert_eq!(c.bytecode[cont.index as usize], 0);
}

#[test]
fn try_without_finally_passes_on_its_jumps() {
    let mut c = ByteCompiler::new();
    c.push_loop_control_info(None, 0, false);
    c.push_try_control_info(false, 0, false);
    let brk = record(&mut c, JumpRecordKind::Break, None);
    let before = c.bytecode.clone();
    c.pop_try_control_info(99);
    assert_eq!(c.bytecode, before);
    assert_eq!(c.jump_info.len(), 1);
    assert_eq!(c.jump_info[0].jumps[0].address, brk);
}

#[test]
fn try_with_finally_and_no_environments_hands_table_entries_on() {
    let mut c = ByteCompiler::new();
    c.push_loop_control_info(None, 0, false);
    c.push_try_control_info(true, 0, false);
    let brk = record(&mut c, JumpRecordKind::Break, None);
    let cont = record(&mut c, JumpRecordKind::Continue, None);
    let len0 = c.bytecode.len() as u32;
    c.pop_try_control_info(40);
    assert_eq!(c.bytecode[brk.index as usize], 40);
    assert_eq!(c.bytecode[cont.index as usize], 40);
    let t = len0 as usize;
    assert_eq!(c.bytecode[t], word(Opcode::JumpTable));
    assert_eq!(c.bytecode[t + 1], len0 + 5);
    assert_eq!(c.bytecode[t + 2], 2);
    assert_eq!(c.bytecode[t + 3], DUMMY_ADDRESS);
    assert_eq!(c.bytecode[t + 4], DUMMY_ADDRESS);
    assert_eq!(c.bytecode.len(), t + 5);
    let parent = &c.jump_info[0];
    assert_eq!(parent.jumps.len(), 2);
    assert_eq!(parent.jumps[0].kind, JumpRecordKind::Break);
    assert_eq!(parent.jumps[0].address.index, len0 + 3);
    assert_eq!(parent.jumps[1].kind, JumpRecordKind::Continue);
    assert_eq!(parent.jumps[1].address.index, len0 + 4);
}

#[test]
fn try_with_finally_closes_environments_on_the_way_out() {
    let mut c = ByteCompiler::new();
    c.push_try_control_info(true, 0, false);
    c.current_open_environments_count = 1;
    c.push_try_control_info(true, 0, false);
    let brk = record(&mut c, JumpRecordKind::Break, None);
    let len0 = c.bytecode.len() as u32;
    c.pop_try_control_info(50);
    assert_eq!(c.bytecode[brk.index as usize], 50);
    let t = len0 as usize;
    let exit = t + 4;
    assert_eq!(c.bytecode[t], word(Opcode::JumpTable));
    assert_eq!(c.bytecode[t + 1], exit as u32 + 6);
    assert_eq!(c.bytecode[t + 2], 1);
    assert_eq!(c.bytecode[t + 3], exit as u32);
    assert_eq!(
        c.bytecode[exit..].to_vec(),
        vec![
            word(Opcode::PopEnvironment),
            word(Opcode::PushInt32),
            1,
            word(Opcode::PushFalse),
            word(Opcode::Jump),
            DUMMY_ADDRESS,
        ]
    );
    let parent = &c.jump_info[0];
    assert_eq!(parent.jumps.len(), 1);
    assert_eq!(parent.jumps[0].address.index, exit as u32 + 5);
}

#[test]
fn try_with_finally_at_the_bottom_leaves_the_table_unpatched() {
    let mut c = ByteCompiler::new();
    c.push_try_control_info(true, 0, false);
    let brk = record(&mut c, JumpRecordKind::Break, None);
    let len0 = c.bytecode.len() as u32;
    c.pop_try_control_info(8);
    assert_eq!(c.bytecode[brk.index as usize], 8);
    assert_eq!(c.bytecode[len0 as usize + 1], len0 + 4);
    assert_eq!(c.bytecode[len0 as usize + 3], DUMMY_ADDRESS);
    assert!(c.jump_info.is_empty());
}

#[test]
fn open_environment_counts() {
    let mut c = ByteCompiler::new();
    c.current_open_environments_count = 1;
    c.push_loop_control_info(None, 0, false);
    c.current_open_environments_count = 4;
    c.push_loop_control_info(None, 0, false);
    c.current_open_environments_count = 6;
    assert_eq!(c.jump_info_open_environment_count(0), 3);
    assert_eq!(c.jump_info_open_environment_count(1), 2);
}

#[test]
fn jump_control_info_builders_and_setters() {
    let info = JumpControlInfo::new(2).with_label(Some(sym(4))).with_start_address(9).with_switch_flag(true);
    assert!(info.is_switch());
    assert_eq!(info.label(), Some(sym(4)));
    assert_eq!(info.start_address(), 9);
    let mut info = JumpControlInfo::new(0).with_labelled_block_flag(true).with_loop_flag(true).with_loop_flag(false);
    assert!(info.is_labelled() && !info.is_loop());
    info.set_label(Some(sym(8)));
    info.set_start_address(3);
    assert_eq!(info.label(), Some(sym(8)));
    assert_eq!(info.start_address(), 3);
    let mut flags = JumpControlInfoFlags::default();
    flags.set(JumpControlInfoFlags::IN_FINALLY, true);
    assert!(flags.contains(JumpControlInfoFlags::IN_FINALLY));
    flags.set(JumpControlInfoFlags::IN_FINALLY, false);
    assert_eq!(flags.bits, 0);
}

#[test]
fn patching_writes_the_target() {
    let mut c = ByteCompiler::new();
    let label = c.jump();
    assert_eq!(c.bytecode, vec![word(Opcode::Jump), DUMMY_ADDRESS]);
    c.emit_push_integer(-1);
    assert_eq!(c.bytecode[3], u32::MAX);
    c.patch_jump(label);
    assert_eq!(c.bytecode[1], 4);
    c.patch_jump_with_target(label, 12);
    assert_eq!(c.bytecode[1], 12);
    let (entries, default) = c.jump_table(2);
    assert_eq!(default.index, 5);
    assert_eq!(entries[0].index, 7);
    assert_eq!(entries[1].index, 8);
    c.iterator_close(true);
    assert_eq!(c.bytecode[9], word(Opcode::AsyncIteratorClose));
}

#[test]
fn handed_on_jumps_need_not_lie_in_the_code() {
    let mut c = ByteCompiler::new();
    c.push_loop_control_info(None, 0, false);
    c.jump_info[0].push_break_label(None, Label { index: 2 }, None);
    c.push_try_control_info(false, 3, false);
    c.jump_info[1].push_break_label(None, Label { index: 10 }, None);
    c.jump_info[1].push_continue_label(None, Label { index: 20 }, None);
    c.pop_try_control_info(30);
    assert!(c.bytecode.is_empty());
    assert_eq!(c.jump_info.len(), 1);
    let addresses: Vec<u32> = c.jump_info[0].jumps.iter().map(|r| r.address.index).collect();
    assert_eq!(addresses, vec![2, 10, 20]);
    assert_eq!(c.jump_info[0].jumps[2].kind, JumpRecordKind::Continue);

    c.push_switch_control_info(None, 0, false);
    c.jump_info[1].push_continue_label(None, Label { index: 50 }, None);
    c.pop_switch_control_info();
    assert_eq!(c.jump_info[0].jumps.len(), 4);

    c.push_labelled_control_info(sym(1), 0, false);
    c.jump_info[1].push_break_label(Some(sym(2)), Label { index: 60 }, None);
    c.pop_labelled_control_info();
    assert_eq!(c.jump_info[0].jumps.len(), 5);
    assert_eq!(c.jump_info[0].jumps[4].address.index, 60);
    assert!(c.bytecode.is_empty());
}
