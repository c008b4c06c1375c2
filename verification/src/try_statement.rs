//! Compilation of the `try` statement: the try block, the `catch` clause,
//! the `finally` clause, and the jump control around them.

use vstd::prelude::*;

use crate::bytecompiler::{only_code_changed, ByteCompiler, Label, DUMMY_ADDRESS};
use crate::jump_control::{
    append_to_last, exit_first_index, exit_marked, exit_pops, finally_exit_records, finally_exits,
    jumps_within, lemma_flags_single_bits, lemma_pushed_flags, lemma_set_flag, pushed_info,
    set_flag, statement_info, try_finally_code, JumpControlInfoFlags, JumpControlInfoView,
    JumpRecord,
};
use crate::opcode::Opcode;
use crate::syntax::{block_jumps, Catch, Finally, TryStatement};

verus! {

/// The code of a `catch` clause: open the clause's environment (the
/// `environment_index`-th recorded), take the exception, bind it to the
/// parameter or drop it, run the block, close the environment, and, before a
/// `finally`, mark the completion as normal.
pub open spec fn catch_code(catch: Catch, has_finally: bool, environment_index: u32) -> Seq<u32> {
    seq![Opcode::PushDeclarativeEnvironment.code(), environment_index, Opcode::Exception.code()]
        + match catch.parameter {
        Some(ident) => seq![Opcode::DefInitLet.code(), ident@ as u32],
        None => seq![Opcode::Pop.code()],
    } + catch.block.code@ + seq![Opcode::PopEnvironment.code()] + if has_finally {
        seq![Opcode::PushZero.code(), Opcode::PushFalse.code()]
    } else {
        Seq::<u32>::empty()
    }
}

/// The body of a `finally` clause that ends at `end`: save the return value,
/// run the block, restore the return value, and unless the flag on the
/// stack says the clause was entered normally, throw (without a `catch`) and
/// rethrow.
pub open spec fn finally_body(finally: Finally, has_catch: bool, end: u32) -> Seq<u32> {
    seq![Opcode::GetReturnValue.code()] + finally.block.code@ + seq![
        Opcode::SetReturnValue.code(),
        Opcode::JumpIfFalse.code(),
        end,
    ] + if has_catch {
        Seq::<u32>::empty()
    } else {
        seq![Opcode::Throw.code()]
    } + seq![Opcode::ReThrow.code()]
}

/// Where the body of a `finally` clause that starts at `start` ends.
pub open spec fn finally_end(finally: Finally, has_catch: bool, start: int) -> int {
    start + 2 + finally.block.code@.len() + 5 + if has_catch {
        0int
    } else {
        1int
    }
}

/// The code of a `finally` clause that starts at `start`: `FinallyStart` with
/// the clause's end, where the jump table of the try statement follows, and
/// the body.
pub open spec fn finally_code(finally: Finally, has_catch: bool, start: int) -> Seq<u32> {
    let end = finally_end(finally, has_catch, start);
    seq![Opcode::FinallyStart.code(), end as u32] + finally_body(finally, has_catch, end as u32)
}

/// Where the block of `catch`, compiled at `start`, begins: after the
/// environment, the exception and the binding of the parameter.
pub open spec fn catch_block_start(catch: Catch, start: int) -> int {
    start + 3 + match catch.parameter {
        Some(_) => 2int,
        None => 1int,
    }
}

/// Where the catching part of `t`, compiled at `start`, begins.
pub open spec fn try_catch_start(t: TryStatement, start: int) -> int {
    start + 3 + t.block.code@.len() + 1 + (if t.finally is Some {
        2int
    } else {
        0int
    }) + 2
}

/// Where the `finally` clause of `t`, compiled at `start`, begins.
pub open spec fn try_finally_start(t: TryStatement, start: int, environment_index: u32) -> int {
    try_catch_start(t, start) + catching_code(t, environment_index).len()
}

/// The jumps that the try block and the `catch` block of `t`, compiled at
/// `start`, leave to the try statement.
pub open spec fn try_jumps(t: TryStatement, start: int) -> Seq<JumpRecord> {
    block_jumps(t.block, start + 3) + catch_jumps(t, start)
}

/// The jumps that the `catch` block of `t`, compiled at `start`, leaves to
/// the try statement; none without a `catch`.
pub open spec fn catch_jumps(t: TryStatement, start: int) -> Seq<JumpRecord> {
    match t.catch {
        Some(catch) => block_jumps(catch.block, catch_block_start(catch, try_catch_start(t, start))),
        None => Seq::empty(),
    }
}

/// The jumps that the block of `finally`, compiled at `start`, leaves to the
/// statement around the try statement: they pass the try statement by.
pub open spec fn finally_jumps(finally: Finally, start: int) -> Seq<JumpRecord> {
    block_jumps(finally.block, start + 3)
}

/// The statements a try statement `top` with a `finally` is popped from: those
/// around it, the innermost of which has taken the jumps of the `finally`
/// block, and the try statement.
pub open spec fn finally_exit_stack(
    stack: Seq<JumpControlInfoView>,
    top: JumpControlInfoView,
    finally_jumps: Seq<JumpRecord>,
) -> Seq<JumpControlInfoView> {
    append_to_last(stack, finally_jumps).push(top)
}

/// The code a try statement with a `finally`, whose statements are `stack`
/// when it is popped, ends with after `code`: its jumps sent to the
/// `finally` at `finally_start`, and the jump table.
pub open spec fn popped_try_code(
    code: Seq<u32>,
    stack: Seq<JumpControlInfoView>,
    finally_start: u32,
) -> Seq<u32> {
    try_finally_code(
        code,
        stack.last().jumps,
        finally_start,
        exit_pops(stack),
        exit_marked(stack),
        exit_first_index(stack),
    )
}

/// The statements after a try statement with a `finally`, compiled so that
/// `code_len` words precede its jump table, is popped from `stack`.
pub open spec fn popped_try_stack(stack: Seq<JumpControlInfoView>, code_len: int) -> Seq<
    JumpControlInfoView,
> {
    append_to_last(
        stack.drop_last(),
        finally_exit_records(
            stack.last().jumps,
            exit_pops(stack),
            exit_marked(stack),
            exit_first_index(stack),
            code_len + 3,
        ),
    )
}

/// Whether popping a try statement with a `finally` from `stack`, with
/// `code_len` words before its jump table, is within the limits: its
/// jumps lie in the code, it opened no fewer environments than the
/// statement around it, the jump indices fit in `i32`, and the code fits in
/// `u32`.
pub open spec fn try_pop_fits(stack: Seq<JumpControlInfoView>, code_len: int) -> bool {
    let jumps = stack.last().jumps;
    &&& jumps_within(jumps, code_len)
    &&& stack.len() >= 2 && jumps.len() > 0 ==> stack.last().open_environments >= stack[stack.len()
        - 2].open_environments
    &&& jumps.len() > 0 && exit_marked(stack) && exit_pops(stack) != 0 ==> exit_first_index(stack)
        + jumps.len() <= i32::MAX
    &&& code_len + 3 + jumps.len() + finally_exits(
        exit_pops(stack),
        exit_marked(stack),
        exit_first_index(stack),
        jumps.len(),
    ).len() <= u32::MAX
}

/// The code of the catching part of `t`: its `catch` clause, or, without
/// one, taking the exception and marking the completion as a throw.
pub open spec fn catching_code(t: TryStatement, environment_index: u32) -> Seq<u32> {
    match t.catch {
        Some(catch) => catch_code(catch, t.finally is Some, environment_index),
        None => seq![Opcode::Exception.code(), Opcode::PushTrue.code()],
    }
}

/// The code of `t` compiled at `start`, the `environment_index`-th compile
/// environment being the next to be recorded: `TryStart` with the catch and
/// finally addresses, the block, `TryEnd`, the normal-completion marker
/// before a `finally`, a jump over the catching part, the catching part and
/// the `finally` clause, up to the jump table that ends it.
pub open spec fn try_statement_code(t: TryStatement, start: int, environment_index: u32) -> Seq<u32> {
    let has_finally = t.finally is Some;
    let catch_start = start + 3 + t.block.code@.len() + 1 + (if has_finally {
        2int
    } else {
        0int
    }) + 2;
    let catching = catching_code(t, environment_index);
    let finally_start = catch_start + catching.len();
    seq![
        Opcode::TryStart.code(),
        catch_start as u32,
        if has_finally {
            finally_start as u32
        } else {
            DUMMY_ADDRESS
        },
    ] + t.block.code@ + seq![Opcode::TryEnd.code()] + if has_finally {
        seq![Opcode::PushZero.code(), Opcode::PushFalse.code()]
    } else {
        Seq::<u32>::empty()
    } + seq![Opcode::Jump.code(), finally_start as u32] + catching + match t.finally {
        Some(finally) => finally_code(finally, t.catch is Some, finally_start),
        None => Seq::<u32>::empty(),
    }
}

/// The code of `t` up to its `finally` clause, compiled at `start`, with the
/// finally address still to be patched.
pub open spec fn try_head_code(t: TryStatement, start: int, environment_index: u32) -> Seq<u32> {
    let has_finally = t.finally is Some;
    let catch_start = start + 3 + t.block.code@.len() + 1 + (if has_finally {
        2int
    } else {
        0int
    }) + 2;
    let catching = catching_code(t, environment_index);
    let finally_start = catch_start + catching.len();
    seq![Opcode::TryStart.code(), catch_start as u32, DUMMY_ADDRESS] + t.block.code@ + seq![
        Opcode::TryEnd.code(),
    ] + if has_finally {
        seq![Opcode::PushZero.code(), Opcode::PushFalse.code()]
    } else {
        Seq::<u32>::empty()
    } + seq![Opcode::Jump.code(), finally_start as u32] + catching
}

/// The jump control information a try statement pushes onto `stack` when
/// compiled from `start` with `open_environments` environments open.
pub open spec fn try_info(
    stack: Seq<JumpControlInfoView>,
    open_environments: u32,
    start: u32,
    has_finally: bool,
    use_expr: bool,
) -> JumpControlInfoView {
    pushed_info(
        statement_info(
            open_environments,
            None,
            start,
            set_flag(
                set_flag(0, JumpControlInfoFlags::TRY_BLOCK, true),
                JumpControlInfoFlags::HAS_FINALLY,
                has_finally,
            ),
        ),
        use_expr,
        stack,
    )
}

impl ByteCompiler {
    /// Compiles `t` up to its `finally` clause: pushes its jump control and
    /// emits the try block and the catching part, whose jumps the try
    /// statement takes. Returns the label of the finally address.
    fn compile_try_head(&mut self, t: &TryStatement, use_expr: bool) -> (finally_loc: Label)
        requires
            old(self).bytecode.len() + try_head_code(
                *t,
                old(self).bytecode.len() as int,
                old(self).compile_environments_count,
            ).len() <= u32::MAX,
            t.catch is Some ==> old(self).current_open_environments_count < u32::MAX
                && old(self).compile_environments_count < u32::MAX,
            t.block.well_formed(),
            t.catch matches Some(catch) ==> catch.block.well_formed(),
        ensures
            final(self).bytecode@ == old(self).bytecode@ + try_head_code(
                *t,
                old(self).bytecode.len() as int,
                old(self).compile_environments_count,
            ),
            finally_loc.index == old(self).bytecode.len() + 2,
            final(self).jump_stack() == old(self).jump_stack().push(
                try_info(
                    old(self).jump_stack(),
                    old(self).current_open_environments_count,
                    old(self).bytecode.len() as u32,
                    t.finally is Some,
                    use_expr,
                ).with_jumps_appended(try_jumps(*t, old(self).bytecode.len() as int)),
            ),
            jumps_within(try_jumps(*t, old(self).bytecode.len() as int), final(self).bytecode.len() as int),
            final(self).current_open_environments_count == old(self).current_open_environments_count,
            final(self).compile_environments_count == old(self).compile_environments_count + if t.catch is Some {
                1int
            } else {
                0int
            },
    {
        let ghost code0 = self.bytecode@;
        let ghost stack0 = self.jump_stack();
        let ghost env_index = self.compile_environments_count;
        let try_start = self.next_opcode_location();
        let (catch_start, finally_loc) = self.emit_opcode_with_two_operands(Opcode::TryStart);
        self.patch_jump_with_target(finally_loc, u32::MAX);
        let has_finally = t.finally().is_some();
        let has_catch = t.catch().is_some();
        self.push_try_control_info(has_finally, try_start, use_expr);
        let ghost info = self.jump_stack().last();
        let ghost j1 = block_jumps(t.block, code0.len() + 3int);
        proof {
            assert(self.jump_stack() == stack0.push(info));
        }
        self.compile_block(t.block(), use_expr);
        proof {
            assert(self.jump_stack() =~= stack0.push(info.with_jumps_appended(j1)));
        }
        let ghost len1 = self.bytecode.len();
        self.emit_opcode(Opcode::TryEnd);
        if has_finally {
            self.emit_opcode(Opcode::PushZero);
            if has_catch {
                self.emit_opcode(Opcode::PushFalse);
            } else {
                self.emit_opcode(Opcode::PushFalse);
            }
        }
        let finally = self.jump();
        self.patch_jump(catch_start);
        let ghost catch_code_start = self.bytecode@;
        let ghost j2 = catch_jumps(*t, code0.len() as int);
        assert(catch_code_start.len() == try_catch_start(*t, code0.len() as int));
        match t.catch() {
            Some(catch) => {
                self.compile_catch_stmt(catch, has_finally, use_expr);
                proof {
                    assert(info.with_jumps_appended(j1).with_jumps_appended(j2) =~= info.with_jumps_appended(j1 + j2));
                    assert(self.jump_stack() =~= stack0.push(info.with_jumps_appended(j1 + j2)));
                    assert(j1 + j2 == try_jumps(*t, code0.len() as int));
                }
            },
            None => {
                self.emit_opcode(Opcode::Exception);
                self.emit_opcode(Opcode::PushTrue);
                proof {
                    assert(j1 + j2 =~= j1);
                    assert(j1 =~= try_jumps(*t, code0.len() as int));
                }
            },
        }
        let ghost len2 = self.bytecode.len();
        assert(self.bytecode@ =~= catch_code_start + catching_code(*t, env_index));
        self.patch_jump(finally);
        assert(self.bytecode@ =~= code0 + try_head_code(*t, code0.len() as int, env_index));
        proof {
            let all = j1 + j2;
            assert(all == try_jumps(*t, code0.len() as int));
            assert forall|i: int| 0 <= i < all.len() implies #[trigger] all[i].address.index
                < self.bytecode.len() by {
                if i < j1.len() {
                    assert(all[i] == j1[i]);
                } else {
                    assert(all[i] == j2[i - j1.len()]);
                }
            }
        }
        finally_loc
    }

    /// Compiles the `finally` clause `finally` of the innermost try
    /// statement, marked as in its `finally` meanwhile, patches the finally
    /// address at `finally_loc` with its start, records the jumps of its
    /// block in the statement around the try statement, and pops the try
    /// statement, whose jumps enter the `finally` and leave it by the jump
    /// table.
    fn compile_try_finally(&mut self, finally: &Finally, finally_loc: Label, has_catch: bool)
        requires
            finally_loc.index < old(self).bytecode.len(),
            old(self).jump_info.len() > 0,
            old(self).jump_stack().last().is_try_block(),
            old(self).jump_stack().last().has_finally(),
            finally.block.well_formed(),
            finally.block.jumps.len() > 0 ==> old(self).jump_info.len() >= 2,
            old(self).bytecode.len() + finally_code(
                *finally,
                has_catch,
                old(self).bytecode.len() as int,
            ).len() <= u32::MAX,
            try_pop_fits(
                finally_exit_stack(
                    old(self).jump_stack().drop_last(),
                    old(self).jump_stack().last(),
                    finally_jumps(*finally, old(self).bytecode.len() as int),
                ),
                old(self).bytecode.len() + finally_code(
                    *finally,
                    has_catch,
                    old(self).bytecode.len() as int,
                ).len(),
            ),
        ensures
            ({
                let stack = finally_exit_stack(
                    old(self).jump_stack().drop_last(),
                    old(self).jump_stack().last(),
                    finally_jumps(*finally, old(self).bytecode.len() as int),
                );
                let code = old(self).bytecode@.update(
                    finally_loc.index as int,
                    old(self).bytecode.len() as u32,
                ) + finally_code(*finally, has_catch, old(self).bytecode.len() as int);
                &&& final(self).bytecode@ == popped_try_code(
                    code,
                    stack,
                    old(self).bytecode.len() as u32,
                )
                &&& final(self).jump_stack() == popped_try_stack(stack, code.len() as int)
            }),
            final(self).current_open_environments_count == old(self).current_open_environments_count,
            final(self).compile_environments_count == old(self).compile_environments_count,
    {
        let ghost code0 = self.bytecode@;
        let ghost stack0 = self.jump_stack();
        let ghost fjumps = finally_jumps(*finally, code0.len() as int);
        let ghost exit_stack = finally_exit_stack(stack0.drop_last(), stack0.last(), fjumps);
        let finally_start = self.next_opcode_location();
        let finally_end = self.emit_opcode_with_operand(Opcode::FinallyStart);
        let info = self.current_jump_control_mut().unwrap();
        info.flags.insert(JumpControlInfoFlags { bits: JumpControlInfoFlags::IN_FINALLY });
        let ghost marked = self.jump_stack().last();
        proof {
            let top = stack0.last();
            assert(marked.flags == set_flag(top.flags, JumpControlInfoFlags::IN_FINALLY, true));
            lemma_flags_single_bits();
            lemma_set_flag(top.flags, JumpControlInfoFlags::IN_FINALLY, JumpControlInfoFlags::TRY_BLOCK, true);
            lemma_set_flag(top.flags, JumpControlInfoFlags::IN_FINALLY, JumpControlInfoFlags::HAS_FINALLY, true);
            lemma_set_flag(top.flags, JumpControlInfoFlags::IN_FINALLY, JumpControlInfoFlags::IN_FINALLY, true);
            assert(marked.is_try_block() && marked.has_finally() && marked.in_finally());
            assert(marked.jumps == top.jumps);
            assert(marked.open_environments == top.open_environments);
            assert(self.jump_stack().drop_last() =~= stack0.drop_last());
        }
        self.patch_jump_with_target(finally_loc, finally_start);
        self.compile_finally_stmt(finally, finally_end, has_catch);
        if finally.block.jumps.len() > 0 {
            let around = self.jump_info.len() - 2;
            self.record_block_jumps(&finally.block, finally_start + 3, around);
        }
        let ghost before_pop = self.bytecode@;
        let ghost stack1 = self.jump_stack();
        proof {
            assert(stack1.drop_last() =~= append_to_last(stack0.drop_last(), fjumps)) by {
                if finally.block.jumps.len() == 0 {
                    assert(fjumps =~= Seq::<JumpRecord>::empty());
                    let below = stack0.drop_last();
                    if below.len() > 0 {
                        assert(below.last().with_jumps_appended(fjumps) =~= below.last());
                        assert(below.update(below.len() - 1, below.last()) =~= below);
                    }
                }
            }
            assert(stack1.last() == marked);
            assert(stack1.len() == exit_stack.len());
            assert(exit_pops(stack1) == exit_pops(exit_stack));
            assert(exit_marked(stack1) == exit_marked(exit_stack));
            assert(exit_first_index(stack1) == exit_first_index(exit_stack));
            assert(before_pop =~= code0.update(finally_loc.index as int, finally_start) + finally_code(
                *finally,
                has_catch,
                code0.len() as int,
            ));
        }
        self.pop_try_control_info(finally_start);
        proof {
            assert(stack1.drop_last() =~= exit_stack.drop_last());
        }
    }

    /// Compiles `t`: the try block under a try statement's jump control, the
    /// catching part, and the `finally` clause with the statement marked as
    /// in its `finally`; then pops the statement's jump control with the
    /// start of the `finally` (or the end of the statement) as target. The
    /// jumps of the try block and the `catch` block are the try statement's:
    /// with a `finally`, they enter it and leave it by its jump table; without
    /// one, the statement around takes them over. Those of the `finally`
    /// block go to the statement around.
    pub fn compile_try(&mut self, t: &TryStatement, use_expr: bool)
        requires
            t.block.well_formed(),
            t.catch matches Some(catch) ==> catch.block.well_formed(),
            t.finally matches Some(finally) ==> finally.block.well_formed(),
            t.catch is Some ==> old(self).current_open_environments_count < u32::MAX
                && old(self).compile_environments_count < u32::MAX,
            old(self).bytecode.len() + try_statement_code(
                *t,
                old(self).bytecode.len() as int,
                old(self).compile_environments_count,
            ).len() <= u32::MAX,
            t.finally is None && try_jumps(*t, old(self).bytecode.len() as int).len() > 0
                ==> old(self).jump_info.len() > 0,
            t.finally matches Some(finally) ==> {
                let start = old(self).bytecode.len() as int;
                let env = old(self).compile_environments_count;
                &&& finally.block.jumps.len() > 0 ==> old(self).jump_info.len() > 0
                &&& try_pop_fits(
                    finally_exit_stack(
                        old(self).jump_stack(),
                        try_info(
                            old(self).jump_stack(),
                            old(self).current_open_environments_count,
                            start as u32,
                            true,
                            use_expr,
                        ).with_jumps_appended(try_jumps(*t, start)),
                        finally_jumps(finally, try_finally_start(*t, start, env)),
                    ),
                    start + try_statement_code(*t, start, env).len(),
                )
            },
        ensures
            t.finally matches Some(finally) ==> {
                let start = old(self).bytecode.len() as int;
                let env = old(self).compile_environments_count;
                let stack = finally_exit_stack(
                    old(self).jump_stack(),
                    try_info(
                        old(self).jump_stack(),
                        old(self).current_open_environments_count,
                        start as u32,
                        true,
                        use_expr,
                    ).with_jumps_appended(try_jumps(*t, start)),
                    finally_jumps(finally, try_finally_start(*t, start, env)),
                );
                let code = old(self).bytecode@ + try_statement_code(*t, start, env);
                &&& final(self).bytecode@ == popped_try_code(
                    code,
                    stack,
                    try_finally_start(*t, start, env) as u32,
                )
                &&& final(self).jump_stack() == popped_try_stack(stack, code.len() as int)
            },
            t.finally is None ==> {
                &&& final(self).bytecode@ == old(self).bytecode@ + try_statement_code(
                    *t,
                    old(self).bytecode.len() as int,
                    old(self).compile_environments_count,
                )
                &&& final(self).jump_stack() == append_to_last(
                    old(self).jump_stack(),
                    try_jumps(*t, old(self).bytecode.len() as int),
                )
            },
            final(self).current_open_environments_count == old(self).current_open_environments_count,
            final(self).compile_environments_count == old(self).compile_environments_count + if t.catch is Some {
                1int
            } else {
                0int
            },
    {
        let ghost code0 = self.bytecode@;
        let ghost stack0 = self.jump_stack();
        let ghost env_index = self.compile_environments_count;
        let ghost start = code0.len() as int;
        let ghost stack0_current = self.current_open_environments_count;
        let has_finally = t.finally().is_some();
        let has_catch = t.catch().is_some();
        let finally_loc = self.compile_try_head(t, use_expr);
        let ghost pushed = self.jump_stack();
        proof {
            let own = set_flag(
                set_flag(0, JumpControlInfoFlags::TRY_BLOCK, true),
                JumpControlInfoFlags::HAS_FINALLY,
                has_finally,
            );
            lemma_flags_single_bits();
            lemma_pushed_flags(own, use_expr, stack0, JumpControlInfoFlags::TRY_BLOCK);
            lemma_pushed_flags(own, use_expr, stack0, JumpControlInfoFlags::HAS_FINALLY);
            lemma_set_flag(
                set_flag(0, JumpControlInfoFlags::TRY_BLOCK, true),
                JumpControlInfoFlags::HAS_FINALLY,
                JumpControlInfoFlags::TRY_BLOCK,
                has_finally,
            );
            lemma_set_flag(
                set_flag(0, JumpControlInfoFlags::TRY_BLOCK, true),
                JumpControlInfoFlags::HAS_FINALLY,
                JumpControlInfoFlags::HAS_FINALLY,
                has_finally,
            );
            lemma_set_flag(0, JumpControlInfoFlags::TRY_BLOCK, JumpControlInfoFlags::TRY_BLOCK, true);
            assert(pushed.last().is_try_block());
            assert(pushed.last().has_finally() == has_finally);
            assert(pushed.last().jumps == try_jumps(*t, start));
            assert(pushed.drop_last() =~= stack0);
        }
        match t.finally() {
            Some(finally) => {
                let ghost head = self.bytecode@;
                let ghost fs = try_finally_start(*t, start, env_index);
                assert(head.len() == fs);
                self.compile_try_finally(finally, finally_loc, has_catch);
                assert(head.update(start + 2, fs as u32) + finally_code(*finally, has_catch, fs)
                    =~= code0 + try_statement_code(*t, start, env_index));
                assert(pushed.last() == try_info(stack0, stack0_current, start as u32, true, use_expr).with_jumps_appended(try_jumps(*t, start)));
            },
            None => {
                let try_end = self.next_opcode_location();
                self.pop_try_control_info(try_end);
                assert(self.bytecode@ =~= code0 + try_statement_code(*t, code0.len() as int, env_index));
            },
        }
    }

    /// Compiles the `catch` clause `catch` inside a new environment.
    pub fn compile_catch_stmt(&mut self, catch: &Catch, has_finally: bool, use_expr: bool)
        requires
            old(self).bytecode.len() + catch_code(
                *catch,
                has_finally,
                old(self).compile_environments_count,
            ).len() <= u32::MAX,
            old(self).current_open_environments_count < u32::MAX,
            old(self).compile_environments_count < u32::MAX,
            catch.block.well_formed(),
            catch.block.jumps.len() > 0 ==> old(self).jump_info.len() > 0,
        ensures
            final(self).bytecode@ == old(self).bytecode@ + catch_code(
                *catch,
                has_finally,
                old(self).compile_environments_count,
            ),
            final(self).jump_stack() == append_to_last(
                old(self).jump_stack(),
                block_jumps(catch.block, catch_block_start(*catch, old(self).bytecode.len() as int)),
            ),
            jumps_within(
                block_jumps(catch.block, catch_block_start(*catch, old(self).bytecode.len() as int)),
                final(self).bytecode.len() as int,
            ),
            final(self).current_open_environments_count == old(self).current_open_environments_count,
            final(self).compile_environments_count == old(self).compile_environments_count + 1,
    {
        let ghost code0 = self.bytecode@;
        self.push_compile_environment(false);
        let push_env = self.emit_opcode_with_operand(Opcode::PushDeclarativeEnvironment);
        self.emit_opcode(Opcode::Exception);
        match catch.parameter {
            Some(ident) => self.emit_binding_init_let(ident),
            None => self.emit_opcode(Opcode::Pop),
        }
        self.compile_block(&catch.block, use_expr);
        let env_index = self.pop_compile_environment();
        self.patch_jump_with_target(push_env, env_index);
        self.emit_opcode(Opcode::PopEnvironment);
        if has_finally {
            self.emit_opcode(Opcode::PushZero);
            self.emit_opcode(Opcode::PushFalse);
        }
        assert(self.bytecode@ =~= code0 + catch_code(*catch, has_finally, env_index));
    }

    /// Compiles the `finally` clause `finally` and patches the operand of its
    /// `FinallyStart` at `finally_end_label` with its end.
    pub fn compile_finally_stmt(&mut self, finally: &Finally, finally_end_label: Label, has_catch: bool)
        requires
            finally_end_label.index < old(self).bytecode.len(),
            old(self).bytecode.len() + finally_body(*finally, has_catch, 0).len() <= u32::MAX,
        ensures
            final(self).bytecode@ == old(self).bytecode@.update(
                finally_end_label.index as int,
                final(self).bytecode.len() as u32,
            ) + finally_body(*finally, has_catch, final(self).bytecode.len() as u32),
            final(self).bytecode.len() == old(self).bytecode.len() + finally_body(
                *finally,
                has_catch,
                0,
            ).len(),
            only_code_changed(*old(self), *final(self)),
    {
        let ghost code0 = self.bytecode@;
        self.emit_opcode(Opcode::GetReturnValue);
        self.emit_block_code(&finally.block);
        self.emit_opcode(Opcode::SetReturnValue);
        let has_throw_exit = self.jump_if_false();
        if !has_catch {
            self.emit_opcode(Opcode::Throw);
        }
        self.emit_opcode(Opcode::ReThrow);
        let ghost end = self.bytecode.len() as u32;
        self.patch_jump(has_throw_exit);
        self.patch_jump(finally_end_label);
        assert(self.bytecode@ =~= code0.update(finally_end_label.index as int, end) + finally_body(
            *finally,
            has_catch,
            end,
        ));
    }
}

/// The layout of a compiled try statement: `TryStart` names where the
/// catching part starts and, with a `finally`, where the `finally` starts;
/// the try block ends with `TryEnd` and a jump over the catching part to the
/// `finally` (or the end); the catching part starts by opening the `catch`
/// environment (or taking the exception) and, only before a `finally`, ends
/// by pushing the completion marker; without a `finally` the `catch` clause
/// ends by closing its environment. The `finally` ends where the jump table
/// follows the code.
pub proof fn law_try_statement_layout(t: TryStatement, start: int, environment_index: u32)
    ensures
        ({
            let code = try_statement_code(t, start, environment_index);
            let cs = try_catch_start(t, start) - start;
            let fs = try_finally_start(t, start, environment_index) - start;
            let bl = t.block.code@.len() as int;
            &&& 3 + bl + 3 <= cs < fs <= code.len()
            &&& code[0] == Opcode::TryStart.code()
            &&& code[1] == try_catch_start(t, start) as u32
            &&& code[3 + bl] == Opcode::TryEnd.code()
            &&& code[cs - 2] == Opcode::Jump.code()
            &&& code[cs - 1] == try_finally_start(t, start, environment_index) as u32
            &&& code[cs] == if t.catch is Some {
                Opcode::PushDeclarativeEnvironment.code()
            } else {
                Opcode::Exception.code()
            }
            &&& t.catch matches Some(catch) ==> {
                &&& code[cs + 1] == environment_index
                &&& code[cs + 2] == Opcode::Exception.code()
                &&& code[cs + 3] == match catch.parameter {
                    Some(_) => Opcode::DefInitLet.code(),
                    None => Opcode::Pop.code(),
                }
                &&& catch.parameter matches Some(ident) ==> code[cs + 4] == ident@ as u32
            }
            &&& t.finally is None ==> {
                &&& code[2] == DUMMY_ADDRESS
                &&& fs == code.len()
                &&& code.last() == if t.catch is Some {
                    Opcode::PopEnvironment.code()
                } else {
                    Opcode::PushTrue.code()
                }
                &&& cs == 3 + bl + 3
            }
            &&& t.finally is Some ==> {
                &&& code[2] == try_finally_start(t, start, environment_index) as u32
                &&& code[4 + bl] == Opcode::PushZero.code()
                &&& code[5 + bl] == Opcode::PushFalse.code()
                &&& code[fs] == Opcode::FinallyStart.code()
                &&& code[fs + 1] == (start + code.len()) as u32
                &&& code[fs - 1] == if t.catch is Some {
                    Opcode::PushFalse.code()
                } else {
                    Opcode::PushTrue.code()
                }
                &&& t.catch is Some ==> code[fs - 2] == Opcode::PushZero.code()
                    && code[fs - 3] == Opcode::PopEnvironment.code()
                &&& code[code.len() - 1] == Opcode::ReThrow.code()
                &&& t.catch is None ==> code[code.len() - 2] == Opcode::Throw.code()
                &&& code[code.len() - (if t.catch is Some { 2int } else { 3int })] == (start
                    + code.len()) as u32
                &&& code[code.len() - (if t.catch is Some { 3int } else { 4int })]
                    == Opcode::JumpIfFalse.code()
                &&& code[fs + 2] == Opcode::GetReturnValue.code()
            }
        }),
{
    let code = try_statement_code(t, start, environment_index);
    let has_finally = t.finally is Some;
    let cs_abs = try_catch_start(t, start);
    let fs_abs = try_finally_start(t, start, environment_index);
    let cs = cs_abs - start;
    let fs = fs_abs - start;
    let bl = t.block.code@.len() as int;
    let head = seq![
        Opcode::TryStart.code(),
        cs_abs as u32,
        if has_finally {
            fs_abs as u32
        } else {
            DUMMY_ADDRESS
        },
    ];
    let marker = if has_finally {
        seq![Opcode::PushZero.code(), Opcode::PushFalse.code()]
    } else {
        Seq::<u32>::empty()
    };
    let catching = catching_code(t, environment_index);
    let fin = match t.finally {
        Some(finally) => finally_code(finally, t.catch is Some, fs_abs),
        None => Seq::<u32>::empty(),
    };
    let front = head + t.block.code@ + seq![Opcode::TryEnd.code()] + marker + seq![
        Opcode::Jump.code(),
        fs_abs as u32,
    ];
    assert(code =~= front + catching + fin);
    assert(front.len() == cs);
    assert(code[0] == head[0]);
    assert(code[1] == head[1]);
    assert(code[2] == head[2]);
    assert(code[3 + bl] == front[3 + bl]);
    assert(code[cs - 2] == front[cs - 2]);
    assert(code[cs - 1] == front[cs - 1]);
    if has_finally {
        assert(code[4 + bl] == front[4 + bl]);
        assert(code[5 + bl] == front[5 + bl]);
    }
    match t.catch {
        Some(catch) => {
            let body = seq![
                Opcode::PushDeclarativeEnvironment.code(),
                environment_index,
                Opcode::Exception.code(),
            ] + match catch.parameter {
                Some(ident) => seq![Opcode::DefInitLet.code(), ident@ as u32],
                None => seq![Opcode::Pop.code()],
            } + catch.block.code@ + seq![Opcode::PopEnvironment.code()];
            assert(catching =~= body + marker);
            assert(catching[0] == body[0]);
            assert(code[cs] == catching[0]);
            assert(code[cs + 1] == catching[1]);
            assert(code[cs + 2] == catching[2]);
            assert(code[cs + 3] == catching[3]);
            assert(catching[3] == body[3]);
            if catch.parameter is Some {
                assert(code[cs + 4] == catching[4]);
                assert(catching[4] == body[4]);
            }
            assert(body.last() == Opcode::PopEnvironment.code());
            if has_finally {
                assert(code[fs - 1] == catching[catching.len() - 1]);
                assert(code[fs - 2] == catching[catching.len() - 2]);
                assert(code[fs - 3] == catching[catching.len() - 3]);
                assert(catching[catching.len() - 3] == body[body.len() - 1]);
            } else {
                assert(catching =~= body);
                assert(code.last() == catching.last());
            }
        },
        None => {
            assert(code[cs] == catching[0]);
            if has_finally {
                assert(code[fs - 1] == catching[1]);
            } else {
                assert(code.last() == catching.last());
            }
        },
    }
    match t.finally {
        Some(finally) => {
            let end = finally_end(finally, t.catch is Some, fs_abs);
            assert(fin.len() == end - fs_abs);
            assert(code[fs] == fin[0]);
            assert(code[fs + 1] == fin[1]);
            assert(code[fs + 2] == fin[2]);
            let fl = fin.len() as int;
            let cl = code.len() as int;
            assert(code[cl - 1] == fin[fl - 1]);
            assert(code[cl - 2] == fin[fl - 2]);
            assert(code[cl - 3] == fin[fl - 3]);
            assert(code[cl - 4] == fin[fl - 4]);
            let body = finally_body(finally, t.catch is Some, end as u32);
            assert(fin =~= seq![Opcode::FinallyStart.code(), end as u32] + body);
            assert(fin[2] == body[0]);
            assert(fin[fl - 1] == body[body.len() - 1]);
            assert(fin[fl - 2] == body[body.len() - 2]);
            assert(fin[fl - 3] == body[body.len() - 3]);
            assert(fin[fl - 4] == body[body.len() - 4]);
            assert(end == start + cl);
        },
        None => {},
    }
}

/// The exits of the first `j` jumps are where the exits of all `n` begin.
pub proof fn lemma_finally_exits_prefix(pops: nat, marked: bool, first_index: nat, j: nat, n: nat)
    requires
        j <= n,
    ensures
        finally_exits(pops, marked, first_index, j).len() <= finally_exits(pops, marked, first_index, n).len(),
        finally_exits(pops, marked, first_index, n).subrange(
            0,
            finally_exits(pops, marked, first_index, j).len() as int,
        ) == finally_exits(pops, marked, first_index, j),
    decreases n - j,
{
    let all = finally_exits(pops, marked, first_index, n);
    if j == n {
        assert(all.subrange(0, all.len() as int) =~= all);
    } else {
        lemma_finally_exits_prefix(pops, marked, first_index, j, (n - 1) as nat);
        let fewer = finally_exits(pops, marked, first_index, (n - 1) as nat);
        let some = finally_exits(pops, marked, first_index, j);
        if pops == 0 {
            assert(some =~= Seq::<u32>::empty());
            assert(all.subrange(0, 0) =~= Seq::<u32>::empty());
        } else {
            assert(all.subrange(0, some.len() as int) =~= fewer.subrange(0, some.len() as int));
        }
    }
}

/// When a try statement with a `finally` is popped inside another one, the
/// exit that its jump table sends each jump to closes the environments the
/// inner statement opened and pushes a marker `m` that names the jump among
/// those of the enclosing statement: the `m`-th jump the enclosing
/// statement then holds is this exit's own jump, of the same kind. So the
/// enclosing `finally`'s jump table later sends it on its own way.
pub proof fn law_finally_exit_marker_names_its_record(
    code: Seq<u32>,
    stack: Seq<JumpControlInfoView>,
    try_end: u32,
    i: int,
)
    requires
        stack.len() >= 2,
        exit_marked(stack),
        exit_pops(stack) > 0,
        0 <= i < stack.last().jumps.len(),
        try_pop_fits(stack, code.len() as int),
    ensures
        ({
            let out = popped_try_code(code, stack, try_end);
            let pops = exit_pops(stack) as int;
            let entry = out[code.len() + 3 + i] as int;
            let marker = out[entry + pops + 1] as int;
            let outer = popped_try_stack(stack, code.len() as int)[stack.len() - 2];
            &&& out[code.len() as int] == Opcode::JumpTable.code()
            &&& code.len() + 3 + stack.last().jumps.len() <= entry
            &&& entry + pops + 5 <= out.len()
            &&& forall|p: int| 0 <= p < pops ==> #[trigger] out[entry + p] == Opcode::PopEnvironment.code()
            &&& out[entry + pops] == Opcode::PushInt32.code()
            &&& out[entry + pops + 2] == Opcode::PushFalse.code()
            &&& out[entry + pops + 3] == Opcode::Jump.code()
            &&& 1 <= marker <= outer.jumps.len()
            &&& outer.jumps[marker - 1].address.index == entry + pops + 4
            &&& outer.jumps[marker - 1].kind == stack.last().jumps[i].kind
        }),
{
    let jumps = stack.last().jumps;
    let n = jumps.len();
    let pops = exit_pops(stack);
    let first = exit_first_index(stack);
    let base = code.len() + 3 + n;
    let exits = finally_exits(pops, true, first, n);
    let before = finally_exits(pops, true, first, i as nat);
    let upto = finally_exits(pops, true, first, (i + 1) as nat);
    let exit = crate::jump_control::finally_exit_code(pops, Some((first + i + 1) as u32));
    let patches = crate::jump_control::jump_patches(jumps, try_end, try_end);
    assert(crate::bytecompiler::patches_within(patches, code.len() as int));
    crate::bytecompiler::lemma_patched_len(code, patches);
    let p = crate::bytecompiler::patched(code, patches);
    let table = crate::jump_control::finally_table(pops, true, first, base as int, n);
    let out = popped_try_code(code, stack, try_end);
    let front = p + seq![Opcode::JumpTable.code(), (base + exits.len()) as u32, n as u32];
    assert(out =~= front + table + exits);
    lemma_finally_exits_prefix(pops, true, first, i as nat, n);
    lemma_finally_exits_prefix(pops, true, first, (i + 1) as nat, n);
    lemma_finally_exits_prefix(pops, true, first, i as nat, (i + 1) as nat);
    assert(upto =~= before + exit);
    assert(exit.len() == pops + 5);
    let entry = (base + before.len()) as int;
    let pi = pops as int;
    assert(out[code.len() as int] == front[code.len() as int]);
    assert(out[code.len() + 3 + i] == table[i]);
    assert(entry + pops + 5 <= base + exits.len());
    assert(out[code.len() + 3 + i] as int == entry);
    assert forall|x: int| 0 <= x < pops + 5 implies #[trigger] out[entry + x] == exit[x] by {
        assert(out[entry + x] == exits[before.len() + x]);
        assert(exits.subrange(0, upto.len() as int)[before.len() + x] == upto[before.len() + x]);
        assert(upto[before.len() + x] == exit[x]);
    }
    let marks = seq![Opcode::PushInt32.code(), (first + i + 1) as u32, Opcode::PushFalse.code()];
    let pop_code = Seq::new(pops, |q: int| Opcode::PopEnvironment.code());
    assert(exit =~= pop_code + marks + seq![Opcode::Jump.code(), DUMMY_ADDRESS]);
    assert forall|q: int| 0 <= q < pops implies #[trigger] out[entry + q] == Opcode::PopEnvironment.code() by {
        assert(out[entry + q] == exit[q]);
    }
    assert(out[entry + (pi + 0)] == exit[pi + 0]);
    assert(out[entry + pi] == exit[pi]);
    assert(out[entry + (pi + 1)] == exit[pi + 1]);
    assert(out[entry + pi + 1] == exit[pi + 1]);
    assert(out[entry + (pi + 2)] == exit[pi + 2]);
    assert(out[entry + pi + 2] == exit[pi + 2]);
    assert(out[entry + (pi + 3)] == exit[pi + 3]);
    assert(out[entry + pi + 3] == exit[pi + 3]);
    let records = finally_exit_records(jumps, pops, true, first, code.len() + 3int);
    let below = stack.drop_last();
    let popped = popped_try_stack(stack, code.len() as int);
    assert(popped == below.update(below.len() - 1, below.last().with_jumps_appended(records)));
    assert(below.last() == stack[stack.len() - 2]);
    let outer = popped[stack.len() - 2];
    assert(outer.jumps == stack[stack.len() - 2].jumps + records);
    assert(outer.jumps[first + i] == records[i]);
    assert(first + i + 1 <= i32::MAX);
}

/// The jump table that ends a try statement with a `finally`: it follows
/// the code, its default target is the end of everything emitted, and it has
/// one entry per jump. With no environments to close, each entry is left for
/// the enclosing statement, which records it in place of the jump; else the
/// entry leads to an exit that closes the environments and, unless the
/// enclosing statement is a try statement with a `finally`, jumps straight
/// on, the enclosing statement recording that jump.
pub proof fn law_finally_jump_table_layout(
    code: Seq<u32>,
    stack: Seq<JumpControlInfoView>,
    try_end: u32,
    i: int,
)
    requires
        stack.len() >= 1,
        0 <= i < stack.last().jumps.len(),
        try_pop_fits(stack, code.len() as int),
    ensures
        ({
            let out = popped_try_code(code, stack, try_end);
            let n = stack.last().jumps.len();
            let pops = exit_pops(stack) as int;
            let entry = out[code.len() + 3 + i] as int;
            let popped = popped_try_stack(stack, code.len() as int);
            &&& code.len() + 3 + n <= out.len()
            &&& out[code.len() as int] == Opcode::JumpTable.code()
            &&& out[code.len() + 1int] == out.len() as u32
            &&& out[code.len() + 2int] == n as u32
            &&& pops == 0 ==> {
                &&& out.len() == code.len() + 3 + n
                &&& entry == DUMMY_ADDRESS
                &&& stack.len() >= 2 ==> popped[stack.len() - 2].jumps[exit_first_index(stack) + i].address.index
                    == code.len() + 3 + i
            }
            &&& pops > 0 && !exit_marked(stack) ==> {
                &&& code.len() + 3 + n <= entry
                &&& entry + pops + 2 <= out.len()
                &&& forall|p: int| 0 <= p < pops ==> #[trigger] out[entry + p] == Opcode::PopEnvironment.code()
                &&& out[entry + pops] == Opcode::Jump.code()
                &&& popped[stack.len() - 2].jumps[exit_first_index(stack) + i].address.index == entry + pops + 1
            }
        }),
{
    let jumps = stack.last().jumps;
    let n = jumps.len();
    let pops = exit_pops(stack);
    let marked = exit_marked(stack);
    let first = exit_first_index(stack);
    let base = code.len() + 3 + n;
    let exits = finally_exits(pops, marked, first, n);
    let patches = crate::jump_control::jump_patches(jumps, try_end, try_end);
    assert(crate::bytecompiler::patches_within(patches, code.len() as int));
    crate::bytecompiler::lemma_patched_len(code, patches);
    let p = crate::bytecompiler::patched(code, patches);
    let table = crate::jump_control::finally_table(pops, marked, first, base as int, n);
    let out = popped_try_code(code, stack, try_end);
    let front = p + seq![Opcode::JumpTable.code(), (base + exits.len()) as u32, n as u32];
    assert(out =~= front + table + exits);
    assert(out[code.len() as int] == front[code.len() as int]);
    assert(out[code.len() + 1int] == front[code.len() + 1int]);
    assert(out[code.len() + 2int] == front[code.len() + 2int]);
    assert(out[code.len() + 3 + i] == table[i]);
    let records = finally_exit_records(jumps, pops, marked, first, code.len() + 3int);
    let popped = popped_try_stack(stack, code.len() as int);
    if stack.len() >= 2 {
        let below = stack.drop_last();
        assert(popped == below.update(below.len() - 1, below.last().with_jumps_appended(records)));
        assert(below.last() == stack[stack.len() - 2]);
        assert(popped[stack.len() - 2].jumps == stack[stack.len() - 2].jumps + records);
        assert(popped[stack.len() - 2].jumps[first + i] == records[i]);
    }
    if pops == 0 {
        assert(exits =~= Seq::<u32>::empty());
    } else if !marked {
        let before = finally_exits(pops, marked, first, i as nat);
        let upto = finally_exits(pops, marked, first, (i + 1) as nat);
        let exit = crate::jump_control::finally_exit_code(pops, None);
        lemma_finally_exits_prefix(pops, marked, first, i as nat, n);
        lemma_finally_exits_prefix(pops, marked, first, (i + 1) as nat, n);
        assert(upto =~= before + exit);
        let entry = (base + before.len()) as int;
        let pi = pops as int;
        assert(out[code.len() + 3 + i] as int == entry);
        assert forall|x: int| 0 <= x < pi + 2 implies #[trigger] out[entry + x] == exit[x] by {
            assert(out[entry + x] == exits[before.len() + x]);
            assert(exits.subrange(0, upto.len() as int)[before.len() + x] == upto[before.len() + x]);
            assert(upto[before.len() + x] == exit[x]);
        }
        let pop_code = Seq::new(pops, |q: int| Opcode::PopEnvironment.code());
        assert(exit =~= pop_code + seq![Opcode::Jump.code(), DUMMY_ADDRESS]);
        assert forall|q: int| 0 <= q < pi implies #[trigger] out[entry + q] == Opcode::PopEnvironment.code() by {
            assert(out[entry + q] == exit[q]);
        }
        assert(out[entry + (pi + 0)] == exit[pi + 0]);
        assert(out[entry + pi] == exit[pi]);
    }
}

} // verus!
