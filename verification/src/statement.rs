//! Compilation of `break` and `continue`: which statements they leave, which
//! environments they close and which jumps they record.

use vstd::prelude::*;

use crate::bytecompiler::{iterator_close_code, ByteCompiler, Label, DUMMY_ADDRESS};
use crate::interner::Sym;
use crate::jump_control::{
    open_environments_from, open_environments_of, same_label, JumpControlInfoView, JumpRecord,
    JumpRecordKind,
};
use crate::opcode::Opcode;
use crate::syntax::{Break, Continue};

verus! {

/// A step of the code that a `break` runs on its way out.
#[derive(Clone, Copy, Debug, PartialEq, Eq, Structural)]
pub enum JumpRecordAction {
    /// Emit a jump.
    CreateJump,
    /// Record the jump in the statement at `index`.
    Transfter { index: u32 },
    /// Close `count` environments.
    PopEnvironments { count: u32 },
    /// Tell a `finally` block which of its jumps to take.
    HandleFinally { value: i32 },
    /// Close the iterator of an iterator loop.
    CloseIterator { is_async: bool },
}

/// Whether an unlabelled or labelled `break` ends at `info`.
pub open spec fn is_break_target(info: JumpControlInfoView, label: Option<Sym>) -> bool {
    match label {
        Some(_) => info.label == label,
        None => info.is_loop() || info.is_switch(),
    }
}

/// Whether a `break` passes through the `finally` of `info`.
pub open spec fn breaks_through_finally(info: JumpControlInfoView) -> bool {
    info.is_try_block() && info.has_finally() && !info.in_finally()
}

/// The actions of a `break`, in the order they are found while walking the
/// stack down from the statement at `k - 1` until its target.
#[verifier::opaque]
pub open spec fn break_walk(
    stack: Seq<JumpControlInfoView>,
    current: u32,
    label: Option<Sym>,
    k: nat,
) -> Seq<JumpRecordAction>
    decreases k,
{
    if k == 0 || k > stack.len() {
        Seq::empty()
    } else {
        let i = k - 1;
        if is_break_target(stack[i], label) {
            break_step(stack, current, label, i)
        } else {
            break_step(stack, current, label, i) + break_walk(stack, current, label, (k - 1) as nat)
        }
    }
}

/// The actions of a `break` at the statement at `i`: close its environments,
/// pass through its `finally`, then either jump to it, when it is the target,
/// or close its iterator (labelled `break` only).
pub open spec fn break_step(
    stack: Seq<JumpControlInfoView>,
    current: u32,
    label: Option<Sym>,
    i: int,
) -> Seq<JumpRecordAction> {
    let info = stack[i];
    seq![
        JumpRecordAction::PopEnvironments {
            count: open_environments_of(stack, current, i) as u32,
        },
    ] + if breaks_through_finally(info) {
        seq![
            JumpRecordAction::HandleFinally { value: (info.jumps.len() + 1) as i32 },
            JumpRecordAction::CreateJump,
            JumpRecordAction::Transfter { index: i as u32 },
        ]
    } else {
        Seq::empty()
    } + if is_break_target(info, label) {
        seq![JumpRecordAction::CreateJump, JumpRecordAction::Transfter { index: i as u32 }]
    } else if label.is_some() && info.iterator_loop() {
        seq![JumpRecordAction::CloseIterator { is_async: info.for_await_of_loop() }]
    } else {
        Seq::empty()
    }
}

/// One step of the walk of a `break`.
pub proof fn lemma_break_walk_unfold(
    stack: Seq<JumpControlInfoView>,
    current: u32,
    label: Option<Sym>,
    k: nat,
)
    requires
        0 < k <= stack.len(),
    ensures
        break_walk(stack, current, label, k) == if is_break_target(stack[k - 1], label) {
            break_step(stack, current, label, k - 1)
        } else {
            break_step(stack, current, label, k - 1) + break_walk(
                stack,
                current,
                label,
                (k - 1) as nat,
            )
        },
{
    reveal(break_walk);
}

/// The walk below the bottom of the stack is empty.
pub proof fn lemma_break_walk_empty(stack: Seq<JumpControlInfoView>, current: u32, label: Option<Sym>)
    ensures
        break_walk(stack, current, label, 0) == Seq::<JumpRecordAction>::empty(),
{
    reveal(break_walk);
}

/// Whether a `break` walking down the stack reaches the statement at `i`: no
/// statement above it is the target.
pub open spec fn break_reaches(stack: Seq<JumpControlInfoView>, label: Option<Sym>, i: int) -> bool {
    forall|j: int| i < j < stack.len() ==> !is_break_target(#[trigger] stack[j], label)
}

/// Whether the walk of a `break` is defined at every statement it reaches:
/// each such statement opened no fewer environments than the one below it,
/// and each `finally` it passes through has fewer than `i32::MAX` jumps.
#[verifier::opaque]
pub open spec fn break_walk_defined(
    stack: Seq<JumpControlInfoView>,
    current: u32,
    label: Option<Sym>,
) -> bool {
    forall|i: int|
        0 <= i < stack.len() && break_reaches(stack, label, i) ==> open_environments_of(
            stack,
            current,
            i,
        ) >= 0 && (breaks_through_finally(#[trigger] stack[i]) ==> stack[i].jumps.len() < i32::MAX)
}

/// A statement the walk of a `break` reaches can be walked.
pub proof fn lemma_break_walk_defined_at(
    stack: Seq<JumpControlInfoView>,
    current: u32,
    label: Option<Sym>,
    i: int,
)
    requires
        break_walk_defined(stack, current, label),
        0 <= i < stack.len(),
        break_reaches(stack, label, i),
    ensures
        open_environments_of(stack, current, i) >= 0,
        breaks_through_finally(stack[i]) ==> stack[i].jumps.len() < i32::MAX,
{
    reveal(break_walk_defined);
}

/// Whether a `continue` ends at `info`.
pub open spec fn is_continue_target(info: JumpControlInfoView, label: Option<Sym>) -> bool {
    match label {
        Some(_) => info.label == label,
        None => info.is_loop(),
    }
}

/// The index of the innermost statement among the first `k` at which a
/// `continue` ends, or -1 if there is none.
pub open spec fn continue_target_below(
    stack: Seq<JumpControlInfoView>,
    label: Option<Sym>,
    k: int,
) -> int
    decreases k,
{
    if k <= 0 {
        -1
    } else if is_continue_target(stack[k - 1], label) {
        k - 1
    } else {
        continue_target_below(stack, label, k - 1)
    }
}

/// The index of the innermost statement at which a `continue` ends, or -1.
pub open spec fn continue_target(stack: Seq<JumpControlInfoView>, label: Option<Sym>) -> int {
    continue_target_below(stack, label, stack.len() as int)
}

/// The innermost target is a target, and no statement above it is one.
pub proof fn lemma_continue_target_below(stack: Seq<JumpControlInfoView>, label: Option<Sym>, k: int)
    requires
        0 <= k <= stack.len(),
    ensures
        -1 <= continue_target_below(stack, label, k) < k,
        continue_target_below(stack, label, k) >= 0 ==> is_continue_target(
            stack[continue_target_below(stack, label, k)],
            label,
        ),
        forall|j: int|
            continue_target_below(stack, label, k) < j < k ==> !is_continue_target(
                #[trigger] stack[j],
                label,
            ),
    decreases k,
{
    if k > 0 && !is_continue_target(stack[k - 1], label) {
        lemma_continue_target_below(stack, label, k - 1);
    }
}

/// Whether a `continue` that ends at `target` stops walking at the statement
/// at `i`: there it records its jump, either because `i` is the target or
/// because it must first pass through the `finally` of `i`.
pub open spec fn continue_stops_at(stack: Seq<JumpControlInfoView>, target: int, i: int) -> bool {
    i == target || (stack[i].is_try_block() && stack[i].has_finally())
}

/// The statement at which a `continue` that ends at `target` stops, walking
/// down from `k - 1`.
pub open spec fn continue_stop(stack: Seq<JumpControlInfoView>, target: int, k: int) -> int
    decreases k - target,
{
    if k <= target + 1 || continue_stops_at(stack, target, k - 1) {
        k - 1
    } else {
        continue_stop(stack, target, k - 1)
    }
}

/// The code a `continue` that ends at `target` emits at the statement at
/// `i`: close its environments, then jump (telling a `finally` which jump to
/// take) if it stops there, or else close the statement's iterator.
pub open spec fn continue_step(
    stack: Seq<JumpControlInfoView>,
    current: u32,
    target: int,
    i: int,
) -> Seq<u32> {
    let info = stack[i];
    Seq::new(
        open_environments_of(stack, current, i) as nat,
        |j: int| Opcode::PopEnvironment.code(),
    ) + if i == target {
        seq![Opcode::Continue.code(), DUMMY_ADDRESS]
    } else if info.is_try_block() && info.has_finally() {
        seq![
            Opcode::PushInt32.code(),
            (info.jumps.len() + 1) as u32,
            Opcode::PushFalse.code(),
            Opcode::Continue.code(),
            DUMMY_ADDRESS,
        ]
    } else if info.iterator_loop() {
        seq![iterator_close_code(info.for_await_of_loop())]
    } else {
        Seq::<u32>::empty()
    }
}

/// The code a `continue` that ends at `target` emits while walking the stack
/// down from the statement at `k - 1` until it stops.
#[verifier::opaque]
pub open spec fn continue_code(
    stack: Seq<JumpControlInfoView>,
    current: u32,
    target: int,
    k: int,
) -> Seq<u32>
    decreases k - target,
{
    if k <= target || k > stack.len() {
        Seq::empty()
    } else if continue_stops_at(stack, target, k - 1) {
        continue_step(stack, current, target, k - 1)
    } else {
        continue_step(stack, current, target, k - 1) + continue_code(stack, current, target, k - 1)
    }
}

/// One step of the code of a `continue`.
pub proof fn lemma_continue_code_unfold(
    stack: Seq<JumpControlInfoView>,
    current: u32,
    target: int,
    k: int,
)
    requires
        target < k <= stack.len(),
    ensures
        continue_code(stack, current, target, k) == if continue_stops_at(stack, target, k - 1) {
            continue_step(stack, current, target, k - 1)
        } else {
            continue_step(stack, current, target, k - 1) + continue_code(
                stack,
                current,
                target,
                k - 1,
            )
        },
{
    reveal(continue_code);
}

/// Whether the walk of a `continue` that ends at `target` is defined at every
/// statement it reaches: each opened no fewer environments than the one below
/// it, and a `finally` it stops at has fewer than `i32::MAX` jumps.
#[verifier::opaque]
pub open spec fn continue_walk_defined(
    stack: Seq<JumpControlInfoView>,
    current: u32,
    target: int,
) -> bool {
    forall|i: int|
        #![trigger open_environments_of(stack, current, i)]
        continue_stop(stack, target, stack.len() as int) <= i < stack.len() ==> open_environments_of(
            stack,
            current,
            i,
        ) >= 0 && (i != target && stack[i].is_try_block() && stack[i].has_finally()
            ==> stack[i].jumps.len() < i32::MAX)
}

/// A statement the walk of a `continue` reaches can be walked.
pub proof fn lemma_continue_walk_defined_at(
    stack: Seq<JumpControlInfoView>,
    current: u32,
    target: int,
    i: int,
)
    requires
        continue_walk_defined(stack, current, target),
        continue_stop(stack, target, stack.len() as int) <= i < stack.len(),
    ensures
        open_environments_of(stack, current, i) >= 0,
        i != target && stack[i].is_try_block() && stack[i].has_finally() ==> stack[i].jumps.len()
            < i32::MAX,
{
    reveal(continue_walk_defined);
    assert(open_environments_of(stack, current, i) >= 0);
}

/// The jump a `continue` with `label` records where it stops: at its target,
/// or, passing through a `finally` first, with its target as final target.
pub open spec fn continue_record(
    label: Option<Sym>,
    address: int,
    stop: int,
    target: int,
) -> JumpRecord {
    JumpRecord {
        kind: JumpRecordKind::Continue,
        label,
        address: Label { index: address as u32 },
        target_index: if stop == target {
            None
        } else {
            Some(target as usize)
        },
    }
}

impl ByteCompiler {
    /// Appends the actions of a `break` with `label` at the statement at `i`
    /// and tells whether that statement is the target.
    fn push_break_step(&self, label: Option<Sym>, i: usize, actions: &mut Vec<JumpRecordAction>) -> (is_target: bool)
        requires
            i < self.jump_info.len(),
            open_environments_of(self.jump_stack(), self.current_open_environments_count, i as int) >= 0,
            breaks_through_finally(self.jump_stack()[i as int]) ==> self.jump_stack()[i as int].jumps.len() < i32::MAX,
        ensures
            final(actions)@ == old(actions)@ + break_step(
                self.jump_stack(),
                self.current_open_environments_count,
                label,
                i as int,
            ),
            is_target == is_break_target(self.jump_stack()[i as int], label),
    {
        let ghost start = actions@;
        let count = self.jump_info_open_environment_count(i);
        actions.push(JumpRecordAction::PopEnvironments { count });
        let info = &self.jump_info[i];
        if info.is_try_block() && info.has_finally() && !info.in_finally() {
            let next_index = info.jumps.len();
            actions.push(JumpRecordAction::HandleFinally { value: next_index as i32 + 1 });
            actions.push(JumpRecordAction::CreateJump);
            actions.push(JumpRecordAction::Transfter { index: i as u32 });
        }
        let is_target = match label {
            Some(_) => same_label(info.label(), label),
            None => info.is_loop() || info.is_switch(),
        };
        if is_target {
            actions.push(JumpRecordAction::CreateJump);
            actions.push(JumpRecordAction::Transfter { index: i as u32 });
        } else if label.is_some() && info.iterator_loop() {
            actions.push(JumpRecordAction::CloseIterator { is_async: info.for_await_of_loop() });
        }
        assert(actions@ =~= start + break_step(
            self.jump_stack(),
            self.current_open_environments_count,
            label,
            i as int,
        ));
        is_target
    }

    /// The actions of `node`: the reverse of the walk down the stack to its
    /// target.
    pub fn break_jump_record_actions(&self, node: &Break) -> (actions: Vec<JumpRecordAction>)
        requires
            break_walk_defined(self.jump_stack(), self.current_open_environments_count, node.label),
        ensures
            actions@ == break_walk(
                self.jump_stack(),
                self.current_open_environments_count,
                node.label,
                self.jump_info.len() as nat,
            ).reverse(),
    {
        let ghost stack = self.jump_stack();
        let ghost current = self.current_open_environments_count;
        let label = node.label();
        let ghost all = break_walk(stack, current, label, stack.len());
        proof {
            assert(all =~= Seq::<JumpRecordAction>::empty() + all);
            lemma_break_walk_empty(stack, current, label);
        }
        let mut actions: Vec<JumpRecordAction> = Vec::new();
        let mut k: usize = self.jump_info.len();
        while k > 0
            invariant_except_break
                k <= stack.len(),
                all == actions@ + break_walk(stack, current, label, k as nat),
                break_reaches(stack, label, k - 1),
            invariant
                stack == self.jump_stack(),
                stack.len() == self.jump_info.len(),
                current == self.current_open_environments_count,
                label == node.label,
                all == break_walk(stack, current, label, stack.len()),
                break_walk(stack, current, label, 0) == Seq::<JumpRecordAction>::empty(),
                break_walk_defined(stack, current, label),
            ensures
                all == actions@,
            decreases k,
        {
            let i = k - 1;
            let ghost before = actions@;
            proof {
                lemma_break_walk_unfold(stack, current, label, k as nat);
                lemma_break_walk_defined_at(stack, current, label, i as int);
            }
            let is_target = self.push_break_step(label, i, &mut actions);
            if is_target {
                assert(actions@ =~= before + break_walk(stack, current, label, k as nat));
                break;
            }
            assert(actions@ + break_walk(stack, current, label, i as nat) =~= before + break_walk(
                stack,
                current,
                label,
                k as nat,
            ));
            k = i;
        }
        proof {
            lemma_break_walk_empty(stack, current, label);
        }
        let n = actions.len();
        let mut reversed: Vec<JumpRecordAction> = Vec::new();
        let mut j: usize = n;
        while j > 0
            invariant
                j <= n,
                n == actions.len(),
                reversed.len() == n - j,
                forall|m: int| 0 <= m < n - j ==> #[trigger] reversed@[m] == actions@[n - 1 - m],
            decreases j,
        {
            j = j - 1;
            reversed.push(actions[j]);
        }
        assert(reversed@ =~= actions@.reverse());
        reversed
    }

    /// The index of the statement at which `node` ends.
    pub fn continue_jump_info_target_index(&self, node: &Continue) -> (r: usize)
        requires
            continue_target(self.jump_stack(), node.label) >= 0,
        ensures
            r == continue_target(self.jump_stack(), node.label),
            r < self.jump_info.len(),
            is_continue_target(self.jump_stack()[r as int], node.label),
            forall|j: int|
                r < j < self.jump_info.len() ==> !is_continue_target(
                    #[trigger] self.jump_stack()[j],
                    node.label,
                ),
    {
        let ghost stack = self.jump_stack();
        proof {
            lemma_continue_target_below(stack, node.label, stack.len() as int);
        }
        let label = node.label();
        let mut k: usize = self.jump_info.len();
        while k > 0
            invariant
                k <= stack.len(),
                stack == self.jump_stack(),
                stack.len() == self.jump_info.len(),
                label == node.label,
                continue_target(stack, label) == continue_target_below(stack, label, k as int),
                continue_target(stack, label) >= 0,
                forall|j: int| k <= j < stack.len() ==> !is_continue_target(#[trigger] stack[j], label),
            decreases k,
        {
            let i = k - 1;
            let info = &self.jump_info[i];
            let found = match label {
                Some(_) => same_label(info.label(), label),
                None => info.is_loop(),
            };
            if found {
                proof {
                    lemma_continue_target_below(stack, label, k as int);
                }
                return i;
            }
            k = i;
        }
        proof {
            assert(continue_target_below(stack, label, 0) == -1);
        }
        0
    }

    /// Compiles `node`: walks the stack down from the innermost statement,
    /// closing environments and iterators, until the target or a `finally`
    /// to pass through first, where it emits the jump and records it.
    pub fn compile_continue(&mut self, node: &Continue, _use_expr: bool)
        requires
            continue_target(old(self).jump_stack(), node.label) >= 0,
            continue_walk_defined(
                old(self).jump_stack(),
                old(self).current_open_environments_count,
                continue_target(old(self).jump_stack(), node.label),
            ),
            old(self).bytecode.len() + continue_code(
                old(self).jump_stack(),
                old(self).current_open_environments_count,
                continue_target(old(self).jump_stack(), node.label),
                old(self).jump_info.len() as int,
            ).len() <= u32::MAX,
        ensures
            ({
                let stack = old(self).jump_stack();
                let target = continue_target(stack, node.label);
                let stop = continue_stop(stack, target, stack.len() as int);
                let code = continue_code(
                    stack,
                    old(self).current_open_environments_count,
                    target,
                    stack.len() as int,
                );
                &&& final(self).bytecode@ == old(self).bytecode@ + code
                &&& final(self).jump_stack() == stack.update(
                    stop,
                    stack[stop].with_jumps_appended(
                        seq![continue_record(node.label, old(self).bytecode.len() + code.len() - 1, stop, target)],
                    ),
                )
            }),
            final(self).current_open_environments_count == old(self).current_open_environments_count,
            final(self).compile_environments_count == old(self).compile_environments_count,
    {
        let ghost stack = self.jump_stack();
        let ghost current = self.current_open_environments_count;
        let ghost code0 = self.bytecode@;
        let target_jump_info_index = self.continue_jump_info_target_index(node);
        let ghost target = target_jump_info_index as int;
        let ghost all = continue_code(stack, current, target, stack.len() as int);
        let ghost stop = continue_stop(stack, target, stack.len() as int);
        proof {
            assert(all =~= Seq::<u32>::empty() + all);
        }
        let label = node.label();
        let mut k: usize = self.jump_info.len();
        loop
            invariant_except_break
                target < k <= stack.len(),
                stack == self.jump_stack(),
                stop == continue_stop(stack, target, k as int),
                all == (self.bytecode@.skip(code0.len() as int) + continue_code(stack, current, target, k as int)),
                self.bytecode@ == code0 + self.bytecode@.skip(code0.len() as int),
            invariant
                stack.len() == self.jump_info.len(),
                current == self.current_open_environments_count,
                label == node.label,
                target == target_jump_info_index,
                target == continue_target(stack, label),
                all == continue_code(stack, current, target, stack.len() as int),
                stop == continue_stop(stack, target, stack.len() as int),
                continue_walk_defined(stack, current, target),
                self.compile_environments_count == old(self).compile_environments_count,
                code0.len() + all.len() <= u32::MAX,
                code0 == old(self).bytecode@,
                stack == old(self).jump_stack(),
            ensures
                self.bytecode@ == code0 + all,
                self.jump_stack() == stack.update(
                    stop,
                    stack[stop].with_jumps_appended(
                        seq![continue_record(label, code0.len() + all.len() - 1, stop, target)],
                    ),
                ),
            decreases k,
        {
            let i = k - 1;
            let ghost before = self.bytecode@;
            proof {
                lemma_continue_code_unfold(stack, current, target, k as int);
                lemma_continue_stop_bounds(stack, target, k as int);
                lemma_continue_walk_defined_at(stack, current, target, i as int);
            }
            let count = self.jump_info_open_environment_count(i);
            let mut c: u32 = 0;
            while c < count
                invariant
                    c <= count,
                    self.bytecode@ == before + Seq::new(c as nat, |j: int| Opcode::PopEnvironment.code()),
                    stack == self.jump_stack(),
                    stack.len() == self.jump_info.len(),
                    current == self.current_open_environments_count,
                    self.compile_environments_count == old(self).compile_environments_count,
                decreases count - c,
            {
                self.emit_opcode(Opcode::PopEnvironment);
                assert(self.bytecode@ =~= before + Seq::new((c + 1) as nat, |j: int| Opcode::PopEnvironment.code()));
                c = c + 1;
            }
            if i == target_jump_info_index {
                let continue_label = self.emit_opcode_with_operand(Opcode::Continue);
                self.push_jump_record_at(
                    i,
                    JumpRecord::new(JumpRecordKind::Continue, label, continue_label, None),
                );
                proof {
                    assert(self.bytecode@ =~= code0 + all);
                }
                break;
            }
            let is_try_block_and_has_finally = self.jump_info[i].is_try_block() && self.jump_info[i].has_finally();
            if is_try_block_and_has_finally {
                let next_index = self.jump_info[i].jumps.len();
                self.emit_push_integer(next_index as i32 + 1);
                self.emit_opcode(Opcode::PushFalse);
                let continue_label = self.emit_opcode_with_operand(Opcode::Continue);
                self.push_jump_record_at(
                    i,
                    JumpRecord::new(
                        JumpRecordKind::Continue,
                        label,
                        continue_label,
                        Some(target_jump_info_index),
                    ),
                );
                proof {
                    assert(self.bytecode@ =~= code0 + all);
                }
                break;
            }
            if self.jump_info[i].iterator_loop() {
                let is_async = self.jump_info[i].for_await_of_loop();
                self.iterator_close(is_async);
            }
            proof {
                assert(self.bytecode@ =~= code0 + self.bytecode@.skip(code0.len() as int));
                assert(all =~= self.bytecode@.skip(code0.len() as int) + continue_code(stack, current, target, i as int));
            }
            k = i;
        }
    }
}

/// Where a `continue` stops lies between its target and the statement it
/// starts from, and is the same from every statement it passes.
pub proof fn lemma_continue_stop_bounds(stack: Seq<JumpControlInfoView>, target: int, k: int)
    requires
        target < k,
    ensures
        target <= continue_stop(stack, target, k) < k,
        !continue_stops_at(stack, target, k - 1) ==> continue_stop(stack, target, k)
            == continue_stop(stack, target, k - 1),
        continue_stops_at(stack, target, k - 1) ==> continue_stop(stack, target, k) == k - 1,
    decreases k - target,
{
    if k > target + 1 && !continue_stops_at(stack, target, k - 1) {
        lemma_continue_stop_bounds(stack, target, k - 1);
    }
}

/// The index of the innermost statement among the first `k` at which a
/// `break` ends, or -1 if there is none.
pub open spec fn break_target_below(stack: Seq<JumpControlInfoView>, label: Option<Sym>, k: int) -> int
    decreases k,
{
    if k <= 0 {
        -1
    } else if is_break_target(stack[k - 1], label) {
        k - 1
    } else {
        break_target_below(stack, label, k - 1)
    }
}

/// The walk of a `break` down from `k - 1` ends by jumping to its innermost
/// target below `k`.
pub proof fn lemma_break_walk_ends_at_target(
    stack: Seq<JumpControlInfoView>,
    current: u32,
    label: Option<Sym>,
    k: nat,
)
    requires
        k <= stack.len(),
        break_target_below(stack, label, k as int) >= 0,
    ensures
        ({
            let walk = break_walk(stack, current, label, k);
            let target = break_target_below(stack, label, k as int);
            &&& walk.len() >= 2
            &&& walk.last() == JumpRecordAction::Transfter { index: target as u32 }
            &&& walk[walk.len() - 2] == JumpRecordAction::CreateJump
        }),
    decreases k,
{
    lemma_break_walk_unfold(stack, current, label, k);
    if !is_break_target(stack[k - 1], label) {
        lemma_break_walk_ends_at_target(stack, current, label, (k - 1) as nat);
        let rest = break_walk(stack, current, label, (k - 1) as nat);
        let step = break_step(stack, current, label, k - 1);
        assert((step + rest).last() == rest.last());
        assert((step + rest)[(step + rest).len() - 2] == rest[rest.len() - 2]);
    }
}

/// The action list of a `break` that has a target begins with its jump to
/// its innermost target: the transfer to that statement, then the creation
/// of the jump. The list is performed from its end, so these come last.
pub proof fn law_break_goes_to_innermost_target(
    stack: Seq<JumpControlInfoView>,
    current: u32,
    label: Option<Sym>,
)
    requires
        break_target_below(stack, label, stack.len() as int) >= 0,
    ensures
        ({
            let actions = break_walk(stack, current, label, stack.len()).reverse();
            &&& actions.len() >= 2
            &&& actions[0] == JumpRecordAction::Transfter {
                index: break_target_below(stack, label, stack.len() as int) as u32,
            }
            &&& actions[1] == JumpRecordAction::CreateJump
        }),
{
    lemma_break_walk_ends_at_target(stack, current, label, stack.len());
}

/// A `continue` that passes through no `finally` on its way records its
/// jump at its target, with no final target.
pub proof fn law_continue_without_finally_stops_at_target(
    stack: Seq<JumpControlInfoView>,
    target: int,
    k: int,
)
    requires
        0 <= target < k <= stack.len(),
        forall|j: int|
            target < j < k ==> !(#[trigger] stack[j].is_try_block() && stack[j].has_finally()),
    ensures
        continue_stop(stack, target, k) == target,
    decreases k - target,
{
    if k > target + 1 {
        law_continue_without_finally_stops_at_target(stack, target, k - 1);
    }
}

/// A `continue` stops at the innermost try statement with a `finally`
/// between its target and where it starts, or at its target when there is
/// none: no statement between where it stops and where it starts has a
/// `finally` it must pass through.
pub proof fn law_continue_stops_at_innermost_finally(
    stack: Seq<JumpControlInfoView>,
    target: int,
    k: int,
)
    requires
        0 <= target < k <= stack.len(),
    ensures
        ({
            let stop = continue_stop(stack, target, k);
            &&& target <= stop < k
            &&& stop == target || (stack[stop].is_try_block() && stack[stop].has_finally())
            &&& forall|j: int|
                stop < j < k ==> !(#[trigger] stack[j].is_try_block() && stack[j].has_finally())
        }),
    decreases k - target,
{
    if k > target + 1 && !continue_stops_at(stack, target, k - 1) {
        law_continue_stops_at_innermost_finally(stack, target, k - 1);
    }
}

/// The environments that performing `actions` closes.
pub open spec fn environments_closed(actions: Seq<JumpRecordAction>) -> int
    decreases actions.len(),
{
    if actions.len() == 0 {
        0
    } else {
        (match actions[0] {
            JumpRecordAction::PopEnvironments { count } => count as int,
            _ => 0int,
        }) + environments_closed(actions.drop_first())
    }
}

/// The environments closed by two runs of actions add up.
pub proof fn lemma_environments_closed_concat(a: Seq<JumpRecordAction>, b: Seq<JumpRecordAction>)
    ensures
        environments_closed(a + b) == environments_closed(a) + environments_closed(b),
    decreases a.len(),
{
    if a.len() > 0 {
        assert((a + b).drop_first() =~= a.drop_first() + b);
        lemma_environments_closed_concat(a.drop_first(), b);
    } else {
        assert(a + b =~= b);
    }
}

/// Actions that close no environments.
pub open spec fn closes_none(actions: Seq<JumpRecordAction>) -> bool {
    forall|j: int| 0 <= j < actions.len() ==> !(#[trigger] actions[j] is PopEnvironments)
}

/// Actions that close no environments close none.
pub proof fn lemma_closes_none(actions: Seq<JumpRecordAction>)
    requires
        closes_none(actions),
    ensures
        environments_closed(actions) == 0,
    decreases actions.len(),
{
    if actions.len() > 0 {
        assert(!(actions[0] is PopEnvironments));
        assert forall|j: int| 0 <= j < actions.drop_first().len() implies !(
        #[trigger] actions.drop_first()[j] is PopEnvironments) by {
            assert(actions.drop_first()[j] == actions[j + 1]);
        }
        lemma_closes_none(actions.drop_first());
    }
}

/// The step of a `break` at the statement at `i` closes the environments
/// that statement opened.
pub proof fn lemma_break_step_closes(
    stack: Seq<JumpControlInfoView>,
    current: u32,
    label: Option<Sym>,
    i: int,
)
    requires
        0 <= i < stack.len(),
        open_environments_of(stack, current, i) >= 0,
    ensures
        environments_closed(break_step(stack, current, label, i)) == open_environments_of(
            stack,
            current,
            i,
        ),
{
    let info = stack[i];
    let head = seq![
        JumpRecordAction::PopEnvironments { count: open_environments_of(stack, current, i) as u32 },
    ];
    let fin = if breaks_through_finally(info) {
        seq![
            JumpRecordAction::HandleFinally { value: (info.jumps.len() + 1) as i32 },
            JumpRecordAction::CreateJump,
            JumpRecordAction::Transfter { index: i as u32 },
        ]
    } else {
        Seq::empty()
    };
    let tail = if is_break_target(info, label) {
        seq![JumpRecordAction::CreateJump, JumpRecordAction::Transfter { index: i as u32 }]
    } else if label.is_some() && info.iterator_loop() {
        seq![JumpRecordAction::CloseIterator { is_async: info.for_await_of_loop() }]
    } else {
        Seq::empty()
    };
    assert(open_environments_of(stack, current, i) <= u32::MAX) by {
        if i + 1 < stack.len() {
            assert(stack[i + 1].open_environments <= u32::MAX);
        }
    }
    assert(break_step(stack, current, label, i) == head + fin + tail);
    lemma_environments_closed_concat(head + fin, tail);
    lemma_environments_closed_concat(head, fin);
    lemma_closes_none(fin);
    lemma_closes_none(tail);
    assert(head.drop_first() =~= Seq::<JumpRecordAction>::empty());
    assert(environments_closed(Seq::<JumpRecordAction>::empty()) == 0);
    assert(environments_closed(head) == open_environments_of(stack, current, i));
}

/// The environments a `break` closes walking down from `k - 1` to its target
/// below `k` are those the statements from the target up to `k - 1` opened.
pub proof fn lemma_break_walk_closes(
    stack: Seq<JumpControlInfoView>,
    current: u32,
    label: Option<Sym>,
    k: nat,
)
    requires
        k <= stack.len(),
        break_target_below(stack, label, k as int) >= 0,
        forall|i: int|
            break_target_below(stack, label, k as int) <= i < k ==> open_environments_of(
                stack,
                current,
                i,
            ) >= 0,
    ensures
        environments_closed(break_walk(stack, current, label, k)) == open_environments_from(
            stack,
            current,
            break_target_below(stack, label, k as int),
        ) - open_environments_from(stack, current, k as int),
    decreases k,
{
    lemma_break_target_below(stack, label, k as int);
    lemma_break_walk_unfold(stack, current, label, k);
    lemma_break_step_closes(stack, current, label, k - 1);
    let step = break_step(stack, current, label, k - 1);
    if is_break_target(stack[k - 1], label) {
        assert(open_environments_from(stack, current, k - 1) == open_environments_of(stack, current, k - 1)
            + open_environments_from(stack, current, k as int));
    } else {
        lemma_break_walk_closes(stack, current, label, (k - 1) as nat);
        lemma_environments_closed_concat(step, break_walk(stack, current, label, (k - 1) as nat));
        assert(open_environments_from(stack, current, k - 1) == open_environments_of(stack, current, k - 1)
            + open_environments_from(stack, current, k as int));
    }
}

/// A `break` closes exactly the environments opened since its target began:
/// the environments its actions close add up to those open now less those
/// open when the target began.
pub proof fn law_break_closes_environments_since_target(
    stack: Seq<JumpControlInfoView>,
    current: u32,
    label: Option<Sym>,
)
    requires
        break_target_below(stack, label, stack.len() as int) >= 0,
        break_walk_defined(stack, current, label),
    ensures
        environments_closed(break_walk(stack, current, label, stack.len()).reverse()) == current
            - stack[break_target_below(stack, label, stack.len() as int)].open_environments,
{
    let target = break_target_below(stack, label, stack.len() as int);
    lemma_break_target_below(stack, label, stack.len() as int);
    assert forall|i: int| target <= i < stack.len() implies open_environments_of(stack, current, i) >= 0 by {
        lemma_break_walk_defined_at(stack, current, label, i);
    }
    lemma_break_walk_closes(stack, current, label, stack.len());
    crate::jump_control::law_open_environments_add_up(stack, current, target);
    lemma_environments_closed_reverse(break_walk(stack, current, label, stack.len()));
}

/// Reversing actions closes the same environments.
pub proof fn lemma_environments_closed_reverse(actions: Seq<JumpRecordAction>)
    ensures
        environments_closed(actions.reverse()) == environments_closed(actions),
    decreases actions.len(),
{
    if actions.len() > 0 {
        let rest = actions.drop_first();
        assert(actions.reverse() =~= rest.reverse() + seq![actions[0]]);
        lemma_environments_closed_reverse(rest);
        lemma_environments_closed_concat(rest.reverse(), seq![actions[0]]);
        assert(seq![actions[0]].drop_first() =~= Seq::<JumpRecordAction>::empty());
        assert(environments_closed(Seq::<JumpRecordAction>::empty()) == 0);
        assert(seq![actions[0]][0] == actions[0]);
    }
}

/// The innermost target below `k` is a target, and no statement between it
/// and `k` is one.
pub proof fn lemma_break_target_below(stack: Seq<JumpControlInfoView>, label: Option<Sym>, k: int)
    requires
        0 <= k <= stack.len(),
    ensures
        -1 <= break_target_below(stack, label, k) < k,
        break_target_below(stack, label, k) >= 0 ==> is_break_target(
            stack[break_target_below(stack, label, k)],
            label,
        ),
        forall|j: int|
            break_target_below(stack, label, k) < j < k ==> !is_break_target(
                #[trigger] stack[j],
                label,
            ),
    decreases k,
{
    if k > 0 && !is_break_target(stack[k - 1], label) {
        lemma_break_target_below(stack, label, k - 1);
    }
}

/// Whether a `break` whose target is the statement at `target` records a
/// jump at the statement at `i`: its target, or a statement above it whose
/// `finally` it passes through.
pub open spec fn break_transfers_to(stack: Seq<JumpControlInfoView>, target: int, i: int) -> bool {
    target <= i < stack.len() && (i == target || breaks_through_finally(stack[i]))
}

/// The transfers of the step of a `break` at the statement at `i` all go to
/// `i`, and there is one exactly when the `break` passes through the
/// `finally` of `i` or ends there; the one for a `finally` comes fourth.
pub proof fn lemma_break_step_transfers(
    stack: Seq<JumpControlInfoView>,
    current: u32,
    label: Option<Sym>,
    i: int,
)
    requires
        0 <= i < stack.len(),
    ensures
        ({
            let step = break_step(stack, current, label, i);
            &&& forall|m: int|
                0 <= m < step.len() && #[trigger] step[m] is Transfter ==> step[m]
                    == JumpRecordAction::Transfter { index: i as u32 } && (breaks_through_finally(
                    stack[i],
                ) || is_break_target(stack[i], label))
            &&& breaks_through_finally(stack[i]) ==> step.len() > 3 && step[3]
                == JumpRecordAction::Transfter { index: i as u32 }
            &&& is_break_target(stack[i], label) ==> step.last() == JumpRecordAction::Transfter {
                index: i as u32,
            }
        }),
{
    let info = stack[i];
    let transfer = JumpRecordAction::Transfter { index: i as u32 };
    let head = seq![
        JumpRecordAction::PopEnvironments { count: open_environments_of(stack, current, i) as u32 },
    ];
    let fin = if breaks_through_finally(info) {
        seq![
            JumpRecordAction::HandleFinally { value: (info.jumps.len() + 1) as i32 },
            JumpRecordAction::CreateJump,
            transfer,
        ]
    } else {
        Seq::empty()
    };
    let tail = if is_break_target(info, label) {
        seq![JumpRecordAction::CreateJump, transfer]
    } else if label.is_some() && info.iterator_loop() {
        seq![JumpRecordAction::CloseIterator { is_async: info.for_await_of_loop() }]
    } else {
        Seq::empty()
    };
    let step = break_step(stack, current, label, i);
    assert(step =~= head + fin + tail);
    assert forall|m: int| 0 <= m < step.len() && #[trigger] step[m] is Transfter implies step[m]
        == transfer && (breaks_through_finally(info) || is_break_target(info, label)) by {
        if m >= 1 + fin.len() {
            assert(step[m] == tail[m - 1 - fin.len()]);
        } else if m >= 1 {
            assert(step[m] == fin[m - 1]);
        }
    }
    if breaks_through_finally(info) {
        assert(step[3] == fin[2]);
    }
    if is_break_target(info, label) {
        assert(step.last() == tail.last());
    }
}

/// Where the walk of a `break` down from `k - 1` records jumps: every
/// transfer goes to its target or to a `finally` it passes through, and it
/// passes through every `finally` between its target and `k`.
pub proof fn lemma_break_walk_transfers(
    stack: Seq<JumpControlInfoView>,
    current: u32,
    label: Option<Sym>,
    k: nat,
)
    requires
        k <= stack.len(),
        break_target_below(stack, label, k as int) >= 0,
    ensures
        ({
            let walk = break_walk(stack, current, label, k);
            let target = break_target_below(stack, label, k as int);
            &&& forall|j: int|
                0 <= j < walk.len() && #[trigger] walk[j] is Transfter ==> exists|i: int|
                    #![trigger stack[i]]
                    break_transfers_to(stack, target, i) && i < k && walk[j]
                        == JumpRecordAction::Transfter { index: i as u32 }
            &&& forall|i: int|
                target < i < k && breaks_through_finally(#[trigger] stack[i]) ==> exists|j: int|
                    0 <= j < walk.len() && #[trigger] walk[j] == JumpRecordAction::Transfter {
                        index: i as u32,
                    }
        }),
    decreases k,
{
    lemma_break_target_below(stack, label, k as int);
    lemma_break_walk_unfold(stack, current, label, k);
    lemma_break_step_transfers(stack, current, label, k - 1);
    let walk = break_walk(stack, current, label, k);
    let target = break_target_below(stack, label, k as int);
    let step = break_step(stack, current, label, k - 1);
    let top = k - 1;
    if is_break_target(stack[top], label) {
        assert(walk == step);
        assert forall|j: int| 0 <= j < walk.len() && #[trigger] walk[j] is Transfter implies exists|i: int|
            #![trigger stack[i]]
            break_transfers_to(stack, target, i) && i < k && walk[j] == JumpRecordAction::Transfter {
                index: i as u32,
            } by {
            assert(stack[top] == stack[top]);
            assert(break_transfers_to(stack, target, top));
        }
    } else {
        let rest = break_walk(stack, current, label, (k - 1) as nat);
        lemma_break_walk_transfers(stack, current, label, (k - 1) as nat);
        assert(walk == step + rest);
        assert(break_target_below(stack, label, k - 1) == target);
        assert forall|j: int| 0 <= j < walk.len() && #[trigger] walk[j] is Transfter implies exists|i: int|
            #![trigger stack[i]]
            break_transfers_to(stack, target, i) && i < k && walk[j] == JumpRecordAction::Transfter {
                index: i as u32,
            } by {
            if j < step.len() {
                assert(walk[j] == step[j]);
                assert(step[j] is Transfter);
                assert(stack[top] == stack[top]);
                assert(break_transfers_to(stack, target, top));
            } else {
                assert(walk[j] == rest[j - step.len()]);
                assert(rest[j - step.len()] is Transfter);
            }
        }
        assert forall|i: int| target < i < k && breaks_through_finally(#[trigger] stack[i]) implies exists|j: int|
            0 <= j < walk.len() && #[trigger] walk[j] == JumpRecordAction::Transfter { index: i as u32 } by {
            if i == top {
                assert(walk[3] == step[3]);
            } else {
                let j2 = choose|j2: int| 0 <= j2 < rest.len() && #[trigger] rest[j2]
                    == JumpRecordAction::Transfter { index: i as u32 };
                assert(walk[step.len() + j2] == rest[j2]);
            }
        }
    }
}

/// A `break` records jumps exactly at its target and at each statement
/// between its target and where it starts whose `finally` it passes
/// through: every transfer among its actions goes to one of those, and each
/// of those has one.
pub proof fn law_break_transfers_to_finally_blocks_and_target(
    stack: Seq<JumpControlInfoView>,
    current: u32,
    label: Option<Sym>,
)
    requires
        break_target_below(stack, label, stack.len() as int) >= 0,
    ensures
        ({
            let actions = break_walk(stack, current, label, stack.len()).reverse();
            let target = break_target_below(stack, label, stack.len() as int);
            &&& forall|j: int|
                0 <= j < actions.len() && #[trigger] actions[j] is Transfter ==> exists|i: int|
                    #![trigger stack[i]]
                    break_transfers_to(stack, target, i) && actions[j]
                        == JumpRecordAction::Transfter { index: i as u32 }
            &&& forall|i: int|
                #![trigger stack[i]]
                break_transfers_to(stack, target, i) ==> exists|j: int|
                    0 <= j < actions.len() && #[trigger] actions[j] == JumpRecordAction::Transfter {
                        index: i as u32,
                    }
        }),
{
    let walk = break_walk(stack, current, label, stack.len());
    let actions = walk.reverse();
    let target = break_target_below(stack, label, stack.len() as int);
    lemma_break_walk_transfers(stack, current, label, stack.len());
    lemma_break_walk_ends_at_target(stack, current, label, stack.len());
    assert forall|j: int| 0 <= j < actions.len() && #[trigger] actions[j] is Transfter implies exists|i: int|
        #![trigger stack[i]]
        break_transfers_to(stack, target, i) && actions[j] == JumpRecordAction::Transfter {
            index: i as u32,
        } by {
        assert(actions[j] == walk[walk.len() - 1 - j]);
        assert(walk[walk.len() - 1 - j] is Transfter);
    }
    assert forall|i: int| #![trigger stack[i]] break_transfers_to(stack, target, i) implies exists|j: int|
        0 <= j < actions.len() && #[trigger] actions[j] == JumpRecordAction::Transfter { index: i as u32 } by {
        if i == target {
            assert(actions[0] == walk.last());
        } else {
            assert(breaks_through_finally(stack[i]));
            let j2 = choose|j2: int| 0 <= j2 < walk.len() && #[trigger] walk[j2]
                == JumpRecordAction::Transfter { index: i as u32 };
            assert(actions[walk.len() - 1 - j2] == walk[j2]);
        }
    }
}

/// The code of a `continue` walking down from `k - 1` ends with the code of
/// the statement where it stops.
pub proof fn lemma_continue_code_ends_with_stop(
    stack: Seq<JumpControlInfoView>,
    current: u32,
    target: int,
    k: int,
)
    requires
        0 <= target < k <= stack.len(),
    ensures
        ({
            let code = continue_code(stack, current, target, k);
            let step = continue_step(stack, current, target, continue_stop(stack, target, k));
            &&& code.len() >= step.len()
            &&& code.subrange(code.len() - step.len(), code.len() as int) == step
        }),
    decreases k - target,
{
    lemma_continue_code_unfold(stack, current, target, k);
    lemma_continue_stop_bounds(stack, target, k);
    let code = continue_code(stack, current, target, k);
    if continue_stops_at(stack, target, k - 1) {
        assert(code.subrange(0, code.len() as int) =~= code);
    } else {
        lemma_continue_code_ends_with_stop(stack, current, target, k - 1);
        let head = continue_step(stack, current, target, k - 1);
        let rest = continue_code(stack, current, target, k - 1);
        let step = continue_step(stack, current, target, continue_stop(stack, target, k));
        assert(code.subrange(code.len() - step.len(), code.len() as int) =~= rest.subrange(
            rest.len() - step.len(),
            rest.len() as int,
        ));
    }
}

/// A `continue` that must pass through a `finally` before its target tells
/// that `finally` which jump to take: the code ends by pushing one more than
/// the number of jumps the statement where it stops had recorded, which is
/// the position, counted from one, of the jump it records there, then the
/// normal-completion flag and the jump; a `continue` that stops at its
/// target ends with the jump alone.
pub proof fn law_continue_marks_its_jump_in_finally(
    stack: Seq<JumpControlInfoView>,
    current: u32,
    target: int,
)
    requires
        0 <= target < stack.len(),
    ensures
        ({
            let code = continue_code(stack, current, target, stack.len() as int);
            let stop = continue_stop(stack, target, stack.len() as int);
            let n = code.len();
            &&& n >= 2
            &&& code[n - 2] == Opcode::Continue.code()
            &&& code[n - 1] == DUMMY_ADDRESS
            &&& stop != target ==> {
                &&& n >= 5
                &&& code[n - 5] == Opcode::PushInt32.code()
                &&& code[n - 4] == (stack[stop].jumps.len() + 1) as u32
                &&& code[n - 3] == Opcode::PushFalse.code()
            }
        }),
{
    let k = stack.len() as int;
    lemma_continue_code_ends_with_stop(stack, current, target, k);
    lemma_continue_stop_bounds(stack, target, k);
    let code = continue_code(stack, current, target, k);
    let stop = continue_stop(stack, target, k);
    let step = continue_step(stack, current, target, stop);
    let info = stack[stop];
    let pops = Seq::new(
        open_environments_of(stack, current, stop) as nat,
        |j: int| Opcode::PopEnvironment.code(),
    );
    let n = code.len() as int;
    let m = step.len() as int;
    assert forall|j: int| 0 <= j < m implies #[trigger] code[n - m + j] == step[j] by {
        assert(code.subrange(n - m, n)[j] == code[n - m + j]);
    }
    if stop == target {
        let tail = seq![Opcode::Continue.code(), DUMMY_ADDRESS];
        assert(step =~= pops + tail);
        assert(step[m - 2] == tail[0]);
        assert(step[m - 1] == tail[1]);
    } else {
        law_continue_stops_at_innermost_finally(stack, target, k);
        assert(info.is_try_block() && info.has_finally());
        let tail = seq![
            Opcode::PushInt32.code(),
            (info.jumps.len() + 1) as u32,
            Opcode::PushFalse.code(),
            Opcode::Continue.code(),
            DUMMY_ADDRESS,
        ];
        assert(step =~= pops + tail);
        assert(step[m - 5] == tail[0]);
        assert(step[m - 4] == tail[1]);
        assert(step[m - 3] == tail[2]);
        assert(step[m - 2] == tail[3]);
        assert(step[m - 1] == tail[4]);
    }
}

/// A `break` that passes through a `finally` tells that `finally` which jump
/// to take: each `HandleFinally` among the actions of its walk is followed,
/// after the jump it creates, by the transfer to a statement that the walk
/// passes, and its value is one more than the number of jumps that statement
/// had recorded, the position, counted from one, of the jump recorded there.
#[verifier::rlimit(40)]
#[verifier::spinoff_prover]
pub proof fn lemma_break_walk_handles_finally(
    stack: Seq<JumpControlInfoView>,
    current: u32,
    label: Option<Sym>,
    k: nat,
)
    requires
        k <= stack.len(),
    ensures
        ({
            let walk = break_walk(stack, current, label, k);
            forall|j: int|
                0 <= j < walk.len() && #[trigger] walk[j] is HandleFinally ==> j + 2 < walk.len()
                    && walk[j + 1] == JumpRecordAction::CreateJump && exists|i: int|
                    #![trigger stack[i]]
                    0 <= i < k && walk[j + 2] == JumpRecordAction::Transfter { index: i as u32 }
                        && walk[j]->value == (stack[i].jumps.len() + 1) as i32
        }),
    decreases k,
{
    if k == 0 {
        lemma_break_walk_empty(stack, current, label);
    } else {
        lemma_break_walk_unfold(stack, current, label, k);
        let i = k - 1;
        let info = stack[i];
        let walk = break_walk(stack, current, label, k);
        let step = break_step(stack, current, label, i);
        let transfer = JumpRecordAction::Transfter { index: i as u32 };
        let head = seq![
            JumpRecordAction::PopEnvironments { count: open_environments_of(stack, current, i) as u32 },
        ];
        let fin = if breaks_through_finally(info) {
            seq![
                JumpRecordAction::HandleFinally { value: (info.jumps.len() + 1) as i32 },
                JumpRecordAction::CreateJump,
                transfer,
            ]
        } else {
            Seq::empty()
        };
        let tail = if is_break_target(info, label) {
            seq![JumpRecordAction::CreateJump, transfer]
        } else if label.is_some() && info.iterator_loop() {
            seq![JumpRecordAction::CloseIterator { is_async: info.for_await_of_loop() }]
        } else {
            Seq::empty()
        };
        assert(step =~= head + fin + tail);
        let rest = if is_break_target(info, label) {
            Seq::<JumpRecordAction>::empty()
        } else {
            break_walk(stack, current, label, (k - 1) as nat)
        };
        assert(walk =~= step + rest);
        if !is_break_target(info, label) {
            lemma_break_walk_handles_finally(stack, current, label, (k - 1) as nat);
        }
        assert forall|j: int| 0 <= j < walk.len() && #[trigger] walk[j] is HandleFinally implies j + 2
            < walk.len() && walk[j + 1] == JumpRecordAction::CreateJump && exists|i2: int|
            #![trigger stack[i2]]
            0 <= i2 < k && walk[j + 2] == JumpRecordAction::Transfter { index: i2 as u32 }
                && walk[j]->value == (stack[i2].jumps.len() + 1) as i32 by {
            if j < step.len() {
                assert(walk[j] == step[j]);
                if j >= 1 + fin.len() {
                    assert(step[j] == tail[j - 1 - fin.len()]);
                } else if j >= 1 {
                    assert(step[j] == fin[j - 1]);
                    assert(j == 1);
                    assert(walk[2] == step[2]);
                    assert(walk[3] == step[3]);
                    assert(stack[i] == info);
                } else {
                    assert(step[0] == head[0]);
                }
            } else {
                let j2 = j - step.len();
                assert(walk[j] == rest[j2]);
                assert(walk[j + 1] == rest[j2 + 1]);
                assert(walk[j + 2] == rest[j2 + 2]);
            }
        }
    }
}

/// The action list of a `break` tells each `finally` it passes through
/// which jump to take: every `HandleFinally` comes right after the creation
/// of the jump and the transfer to a statement below where the `break`
/// starts (the list is performed from its end), and its value is one more
/// than the number of jumps that statement had recorded, the position,
/// counted from one, of the jump the `break` records there.
pub proof fn law_break_marks_its_jump_in_finally(
    stack: Seq<JumpControlInfoView>,
    current: u32,
    label: Option<Sym>,
)
    ensures
        ({
            let actions = break_walk(stack, current, label, stack.len()).reverse();
            forall|j: int|
                0 <= j < actions.len() && #[trigger] actions[j] is HandleFinally ==> j >= 2
                    && actions[j - 1] == JumpRecordAction::CreateJump && exists|i: int|
                    #![trigger stack[i]]
                    0 <= i < stack.len() && actions[j - 2] == JumpRecordAction::Transfter {
                        index: i as u32,
                    } && actions[j]->value == (stack[i].jumps.len() + 1) as i32
        }),
{
    let walk = break_walk(stack, current, label, stack.len());
    let actions = walk.reverse();
    lemma_break_walk_handles_finally(stack, current, label, stack.len());
    assert forall|j: int| 0 <= j < actions.len() && #[trigger] actions[j] is HandleFinally implies j >= 2
        && actions[j - 1] == JumpRecordAction::CreateJump && exists|i: int|
        #![trigger stack[i]]
        0 <= i < stack.len() && actions[j - 2] == JumpRecordAction::Transfter { index: i as u32 }
            && actions[j]->value == (stack[i].jumps.len() + 1) as i32 by {
        let w = walk.len() - 1 - j;
        assert(actions[j] == walk[w]);
        assert(walk[w] is HandleFinally);
        assert(actions[j - 1] == walk[w + 1]);
        assert(actions[j - 2] == walk[w + 2]);
    }
}

/// The code that performing `action` emits.
pub open spec fn action_code(action: JumpRecordAction) -> Seq<u32> {
    match action {
        JumpRecordAction::PopEnvironments { count } => Seq::new(
            count as nat,
            |j: int| Opcode::PopEnvironment.code(),
        ),
        JumpRecordAction::HandleFinally { value } => seq![
            Opcode::PushInt32.code(),
            value as u32,
            Opcode::PushFalse.code(),
        ],
        JumpRecordAction::CreateJump => seq![Opcode::Jump.code(), DUMMY_ADDRESS],
        JumpRecordAction::CloseIterator { is_async } => seq![iterator_close_code(is_async)],
        JumpRecordAction::Transfter { .. } => Seq::empty(),
    }
}

/// The code that performing `actions` in order emits.
pub open spec fn actions_code(actions: Seq<JumpRecordAction>) -> Seq<u32>
    decreases actions.len(),
{
    if actions.len() == 0 {
        Seq::empty()
    } else {
        actions_code(actions.drop_last()) + action_code(actions.last())
    }
}

/// Where, in the code of `actions`, the operand of the last jump they
/// create lies, or -1 if they create none.
pub open spec fn last_jump(actions: Seq<JumpRecordAction>) -> int
    decreases actions.len(),
{
    if actions.len() == 0 {
        -1
    } else if actions.last() == JumpRecordAction::CreateJump {
        actions_code(actions).len() - 1
    } else {
        last_jump(actions.drop_last())
    }
}

/// The position of the first transfer among `actions`, or -1.
pub open spec fn first_transfer(actions: Seq<JumpRecordAction>) -> int
    decreases actions.len(),
{
    if actions.len() == 0 {
        -1
    } else if first_transfer(actions.drop_last()) >= 0 {
        first_transfer(actions.drop_last())
    } else if actions.last() is Transfter {
        actions.len() - 1
    } else {
        -1
    }
}

/// A transfer found in a prefix is the first transfer of the whole.
pub proof fn lemma_first_transfer_prefix(actions: Seq<JumpRecordAction>, k: int)
    requires
        0 <= k <= actions.len(),
        first_transfer(actions.take(k)) >= 0,
    ensures
        first_transfer(actions) == first_transfer(actions.take(k)),
    decreases actions.len() - k,
{
    if k < actions.len() {
        assert(actions.take(k + 1).drop_last() =~= actions.take(k));
        lemma_first_transfer_prefix(actions, k + 1);
    } else {
        assert(actions.take(k) =~= actions);
    }
}

/// A transfer at `j` makes the first transfer come no later.
pub proof fn lemma_first_transfer_exists(actions: Seq<JumpRecordAction>, j: int)
    requires
        0 <= j < actions.len(),
        actions[j] is Transfter,
    ensures
        0 <= first_transfer(actions) <= j,
        actions[first_transfer(actions)] is Transfter,
    decreases actions.len(),
{
    if j < actions.len() - 1 {
        lemma_first_transfer_exists(actions.drop_last(), j);
    } else if first_transfer(actions.drop_last()) >= 0 {
        lemma_first_transfer_bounds(actions.drop_last());
    }
}

/// The first transfer, when there is one, is a transfer.
pub proof fn lemma_first_transfer_bounds(actions: Seq<JumpRecordAction>)
    ensures
        first_transfer(actions) >= 0 ==> first_transfer(actions) < actions.len() && actions[first_transfer(
            actions,
        )] is Transfter,
    decreases actions.len(),
{
    if actions.len() > 0 {
        lemma_first_transfer_bounds(actions.drop_last());
    }
}

/// Every statement a `break` transfers to lies below where its walk starts.
pub proof fn lemma_break_walk_transfer_index(
    stack: Seq<JumpControlInfoView>,
    current: u32,
    label: Option<Sym>,
    k: nat,
    j: int,
)
    requires
        k <= stack.len(),
        0 <= j < break_walk(stack, current, label, k).len(),
        break_walk(stack, current, label, k)[j] is Transfter,
    ensures
        (break_walk(stack, current, label, k)[j]->index as int) < k,
    decreases k,
{
    if k == 0 {
        lemma_break_walk_empty(stack, current, label);
    } else {
        lemma_break_walk_unfold(stack, current, label, k);
        let step = break_step(stack, current, label, k - 1);
        let i = k - 1;
        let transfer = JumpRecordAction::Transfter { index: i as u32 };
        assert forall|m: int| 0 <= m < step.len() && #[trigger] step[m] is Transfter implies step[m]
            == transfer by {
            let info = stack[i];
            let head = seq![
                JumpRecordAction::PopEnvironments {
                    count: open_environments_of(stack, current, i) as u32,
                },
            ];
            let fin = if breaks_through_finally(info) {
                seq![
                    JumpRecordAction::HandleFinally { value: (info.jumps.len() + 1) as i32 },
                    JumpRecordAction::CreateJump,
                    transfer,
                ]
            } else {
                Seq::empty()
            };
            let tail = if is_break_target(info, label) {
                seq![JumpRecordAction::CreateJump, transfer]
            } else if label.is_some() && info.iterator_loop() {
                seq![JumpRecordAction::CloseIterator { is_async: info.for_await_of_loop() }]
            } else {
                Seq::empty()
            };
            assert(step =~= head + fin + tail);
            if m >= 1 + fin.len() {
                assert(step[m] == tail[m - 1 - fin.len()]);
            } else if m >= 1 {
                assert(step[m] == fin[m - 1]);
            }
        }
        if !is_break_target(stack[i], label) {
            let walk = break_walk(stack, current, label, k);
            if j >= step.len() {
                assert(walk[j] == break_walk(stack, current, label, (k - 1) as nat)[j - step.len()]);
                lemma_break_walk_transfer_index(stack, current, label, (k - 1) as nat, j - step.len());
            } else {
                assert(walk[j] == step[j]);
            }
        } else {
            assert(break_walk(stack, current, label, k)[j] == step[j]);
        }
    }
}

/// The record a `break` with `label` leaves at the statement it first
/// transfers to, whose jump operand is at `address`: with no final target
/// when that statement is the `break`'s target, else with it.
pub open spec fn break_record(label: Option<Sym>, address: int, index: int, target: int) -> JumpRecord {
    JumpRecord {
        kind: JumpRecordKind::Break,
        label,
        address: Label { index: address as u32 },
        target_index: if index == target {
            None
        } else {
            Some(target as usize)
        },
    }
}

/// The actions that a `break` with `label` performs before it records its
/// jump: those before its first transfer.
pub open spec fn break_done(stack: Seq<JumpControlInfoView>, current: u32, label: Option<Sym>) -> Seq<
    JumpRecordAction,
> {
    let walk = break_walk(stack, current, label, stack.len());
    walk.take(first_transfer(walk))
}

/// The statement at which a `break` with `label` records its jump: that of
/// its first transfer.
pub open spec fn break_record_index(stack: Seq<JumpControlInfoView>, current: u32, label: Option<Sym>) -> int {
    let walk = break_walk(stack, current, label, stack.len());
    walk[first_transfer(walk)]->index as int
}

/// The jump information after a `break` with `label`, compiled where the
/// code is `code_len` long, records its jump.
pub open spec fn break_recorded(
    stack: Seq<JumpControlInfoView>,
    current: u32,
    label: Option<Sym>,
    code_len: int,
) -> Seq<JumpControlInfoView> {
    let done = break_done(stack, current, label);
    let index = break_record_index(stack, current, label);
    let address = if last_jump(done) >= 0 {
        code_len + last_jump(done)
    } else {
        DUMMY_ADDRESS as int
    };
    stack.update(
        index,
        stack[index].with_jumps_appended(
            seq![break_record(label, address, index, break_target_below(stack, label, stack.len() as int))],
        ),
    )
}

impl ByteCompiler {
    /// Compiles `node`: performs its actions in the order of the walk down
    /// the stack (closing environments, telling `finally` blocks which jump
    /// to take, creating jumps and closing iterators) until the first
    /// transfer, where it records the last jump created in that statement.
    pub fn compile_break(&mut self, node: &Break, _use_expr: bool)
        requires
            break_walk_defined(
                old(self).jump_stack(),
                old(self).current_open_environments_count,
                node.label,
            ),
            break_target_below(old(self).jump_stack(), node.label, old(self).jump_info.len() as int)
                >= 0,
            old(self).bytecode.len() + actions_code(
                break_done(
                    old(self).jump_stack(),
                    old(self).current_open_environments_count,
                    node.label,
                ),
            ).len() <= u32::MAX,
        ensures
            final(self).bytecode@ == old(self).bytecode@ + actions_code(
                break_done(
                    old(self).jump_stack(),
                    old(self).current_open_environments_count,
                    node.label,
                ),
            ),
            final(self).jump_stack() == break_recorded(
                old(self).jump_stack(),
                old(self).current_open_environments_count,
                node.label,
                old(self).bytecode.len() as int,
            ),
            final(self).current_open_environments_count == old(self).current_open_environments_count,
            final(self).compile_environments_count == old(self).compile_environments_count,
    {
        let ghost stack = self.jump_stack();
        let ghost current = self.current_open_environments_count;
        let ghost code0 = self.bytecode@;
        let ghost walk = break_walk(stack, current, node.label, stack.len());
        let ghost target = break_target_below(stack, node.label, stack.len() as int);
        proof {
            law_break_goes_to_innermost_target(stack, current, node.label);
            lemma_break_walk_ends_at_target(stack, current, node.label, stack.len());
            lemma_first_transfer_exists(walk, walk.len() - 1);
            lemma_first_transfer_bounds(walk);
        }
        let ghost f = first_transfer(walk);
        let actions = self.break_jump_record_actions(node);
        let target_index = self.break_target_index(node);
        let n = actions.len();
        let mut label = Label { index: DUMMY_ADDRESS };
        let mut k: usize = 0;
        assert(walk.take(0) =~= Seq::<JumpRecordAction>::empty());
        loop
            invariant
                0 <= k <= f,
                n == walk.len(),
                actions@ == walk.reverse(),
                f == first_transfer(walk),
                0 <= f < walk.len(),
                walk[f] is Transfter,
                first_transfer(walk.take(k as int)) == -1,
                stack == self.jump_stack(),
                stack.len() == self.jump_info.len(),
                current == self.current_open_environments_count,
                current == old(self).current_open_environments_count,
                self.compile_environments_count == old(self).compile_environments_count,
                walk == break_walk(stack, current, node.label, stack.len()),
                code0 == old(self).bytecode@,
                stack == old(self).jump_stack(),
                code0.len() + actions_code(walk.take(f)).len() <= u32::MAX,
                self.bytecode@ == code0 + actions_code(walk.take(k as int)),
                label.index == if last_jump(walk.take(k as int)) >= 0 {
                    code0.len() + last_jump(walk.take(k as int))
                } else {
                    DUMMY_ADDRESS as int
                },
                target_index == target,
                target == break_target_below(stack, node.label, stack.len() as int),
            decreases f - k,
        {
            let action = actions[n - 1 - k];
            assert(action == walk[k as int]);
            assert(walk.take(k + 1).drop_last() =~= walk.take(k as int));
            assert(walk.take(k + 1).last() == walk[k as int]);
            proof {
                if (k as int) < f {
                    lemma_actions_code_grow(walk, k + 1, f);
                }
            }
            match action {
                JumpRecordAction::Transfter { index } => {
                    proof {
                        lemma_break_walk_transfer_index(stack, current, node.label, stack.len(), k as int);
                        lemma_first_transfer_prefix(walk, k + 1);
                    }
                    let record = JumpRecord::new(
                        JumpRecordKind::Break,
                        node.label(),
                        label,
                        if index as usize == target_index {
                            None
                        } else {
                            Some(target_index)
                        },
                    );
                    assert(first_transfer(walk.take(k + 1)) == k);
                    assert(walk.take(f) == break_done(stack, current, node.label));
                    assert(index as int == break_record_index(stack, current, node.label));
                    self.push_jump_record_at(index as usize, record);
                    assert(self.jump_stack() =~= break_recorded(stack, current, node.label, code0.len() as int));
                    return;
                },
                JumpRecordAction::PopEnvironments { count } => {
                    let ghost before = self.bytecode@;
                    let mut c: u32 = 0;
                    while c < count
                        invariant
                            c <= count,
                            self.bytecode@ == before + Seq::new(c as nat, |j: int| Opcode::PopEnvironment.code()),
                            stack == self.jump_stack(),
                            stack.len() == self.jump_info.len(),
                            current == self.current_open_environments_count,
                            self.compile_environments_count == old(self).compile_environments_count,
                        decreases count - c,
                    {
                        self.emit_opcode(Opcode::PopEnvironment);
                        assert(self.bytecode@ =~= before + Seq::new((c + 1) as nat, |j: int| Opcode::PopEnvironment.code()));
                        c = c + 1;
                    }
                },
                JumpRecordAction::HandleFinally { value } => {
                    self.emit_push_integer(value);
                    self.emit_opcode(Opcode::PushFalse);
                },
                JumpRecordAction::CreateJump => {
                    label = self.jump();
                },
                JumpRecordAction::CloseIterator { is_async } => {
                    self.iterator_close(is_async);
                },
            }
            assert(self.bytecode@ =~= code0 + actions_code(walk.take(k + 1)));
            k = k + 1;
        }
    }

    /// The index of the statement at which `node` ends.
    fn break_target_index(&self, node: &Break) -> (r: usize)
        requires
            break_target_below(self.jump_stack(), node.label, self.jump_info.len() as int) >= 0,
        ensures
            r == break_target_below(self.jump_stack(), node.label, self.jump_info.len() as int),
    {
        let ghost stack = self.jump_stack();
        let label = node.label();
        let mut k: usize = self.jump_info.len();
        while k > 0
            invariant
                k <= stack.len(),
                stack == self.jump_stack(),
                stack.len() == self.jump_info.len(),
                label == node.label,
                break_target_below(stack, label, stack.len() as int) == break_target_below(stack, label, k as int),
                break_target_below(stack, label, stack.len() as int) >= 0,
            decreases k,
        {
            let i = k - 1;
            let info = &self.jump_info[i];
            let found = match label {
                Some(_) => same_label(info.label(), label),
                None => info.is_loop() || info.is_switch(),
            };
            if found {
                return i;
            }
            k = i;
        }
        0
    }
}

/// The code of more actions is longer.
pub proof fn lemma_actions_code_grow(actions: Seq<JumpRecordAction>, k: int, f: int)
    requires
        0 <= k <= f <= actions.len(),
    ensures
        actions_code(actions.take(k)).len() <= actions_code(actions.take(f)).len(),
    decreases f - k,
{
    if k < f {
        lemma_actions_code_grow(actions, k, f - 1);
        assert(actions.take(f).drop_last() =~= actions.take(f - 1));
    }
}

/// Every transfer in the walk of a `break` comes right after the creation
/// of the jump it records.
pub proof fn lemma_break_walk_transfer_after_jump(
    stack: Seq<JumpControlInfoView>,
    current: u32,
    label: Option<Sym>,
    k: nat,
)
    requires
        k <= stack.len(),
    ensures
        ({
            let walk = break_walk(stack, current, label, k);
            forall|j: int|
                0 <= j < walk.len() && #[trigger] walk[j] is Transfter ==> j >= 1 && walk[j - 1]
                    == JumpRecordAction::CreateJump
        }),
    decreases k,
{
    if k == 0 {
        lemma_break_walk_empty(stack, current, label);
    } else {
        lemma_break_walk_unfold(stack, current, label, k);
        let i = k - 1;
        let info = stack[i];
        let walk = break_walk(stack, current, label, k);
        let step = break_step(stack, current, label, i);
        let transfer = JumpRecordAction::Transfter { index: i as u32 };
        let head = seq![
            JumpRecordAction::PopEnvironments { count: open_environments_of(stack, current, i) as u32 },
        ];
        let fin = if breaks_through_finally(info) {
            seq![
                JumpRecordAction::HandleFinally { value: (info.jumps.len() + 1) as i32 },
                JumpRecordAction::CreateJump,
                transfer,
            ]
        } else {
            Seq::empty()
        };
        let tail = if is_break_target(info, label) {
            seq![JumpRecordAction::CreateJump, transfer]
        } else if label.is_some() && info.iterator_loop() {
            seq![JumpRecordAction::CloseIterator { is_async: info.for_await_of_loop() }]
        } else {
            Seq::empty()
        };
        assert(step =~= head + fin + tail);
        let rest = if is_break_target(info, label) {
            Seq::<JumpRecordAction>::empty()
        } else {
            break_walk(stack, current, label, (k - 1) as nat)
        };
        assert(walk =~= step + rest);
        if !is_break_target(info, label) {
            lemma_break_walk_transfer_after_jump(stack, current, label, (k - 1) as nat);
        }
        assert forall|j: int| 0 <= j < walk.len() && #[trigger] walk[j] is Transfter implies j >= 1
            && walk[j - 1] == JumpRecordAction::CreateJump by {
            if j < step.len() {
                assert(walk[j] == step[j]);
                assert(walk[j - 1] == step[j - 1]);
                if j >= 1 + fin.len() {
                    assert(step[j] == tail[j - 1 - fin.len()]);
                    assert(step[j - 1] == (head + fin + tail)[j - 1]);
                } else if j >= 1 {
                    assert(step[j] == fin[j - 1]);
                } else {
                    assert(step[0] == head[0]);
                }
            } else {
                let j2 = j - step.len();
                assert(walk[j] == rest[j2]);
                assert(walk[j - 1] == rest[j2 - 1]);
            }
        }
    }
}

/// Where the last jump created by `actions` lies in their code: on the
/// operand, still unpatched, of a `Jump`.
pub proof fn lemma_last_jump_is_a_jump(actions: Seq<JumpRecordAction>)
    ensures
        last_jump(actions) >= 0 ==> {
            let code = actions_code(actions);
            &&& 1 <= last_jump(actions) < code.len()
            &&& code[last_jump(actions) - 1] == Opcode::Jump.code()
            &&& code[last_jump(actions)] == DUMMY_ADDRESS
        },
    decreases actions.len(),
{
    if actions.len() > 0 {
        lemma_last_jump_is_a_jump(actions.drop_last());
        let prev = actions_code(actions.drop_last());
        let code = actions_code(actions);
        assert(code == prev + action_code(actions.last()));
        if actions.last() != JumpRecordAction::CreateJump && last_jump(actions) >= 0 {
            let l = last_jump(actions);
            assert(code[l] == prev[l]);
            assert(code[l - 1] == prev[l - 1]);
        }
    }
}

/// What compiling a `break` leaves: its code ends with the jump it records,
/// whose operand, still unpatched, is the last word emitted; that jump is
/// recorded as a `break` with the statement's label at the statement where
/// the `break` first stops, as the last of its jumps, with the `break`'s
/// target as final target unless it stops at the target itself; every
/// other statement keeps its jumps.
pub proof fn law_break_records_its_last_jump(
    stack: Seq<JumpControlInfoView>,
    current: u32,
    label: Option<Sym>,
    code_len: int,
)
    requires
        break_target_below(stack, label, stack.len() as int) >= 0,
        stack.len() <= u32::MAX,
        0 <= code_len,
        code_len + actions_code(break_done(stack, current, label)).len() <= u32::MAX,
    ensures
        ({
            let code = actions_code(break_done(stack, current, label));
            let index = break_record_index(stack, current, label);
            let target = break_target_below(stack, label, stack.len() as int);
            let after = break_recorded(stack, current, label, code_len);
            let record = after[index].jumps.last();
            &&& code.len() >= 2
            &&& code[code.len() - 2] == Opcode::Jump.code()
            &&& code[code.len() - 1] == DUMMY_ADDRESS
            &&& target <= index < stack.len()
            &&& after.len() == stack.len()
            &&& after[index].jumps.len() == stack[index].jumps.len() + 1
            &&& after[index].jumps.drop_last() == stack[index].jumps
            &&& record.address.index == code_len + code.len() - 1
            &&& record.kind == JumpRecordKind::Break
            &&& record.label == label
            &&& (record.target_index is None <==> index == target)
            &&& record.target_index is Some ==> record.target_index->0 == target
            &&& forall|m: int| 0 <= m < stack.len() && m != index ==> #[trigger] after[m] == stack[m]
        }),
{
    let walk = break_walk(stack, current, label, stack.len());
    let target = break_target_below(stack, label, stack.len() as int);
    let f = first_transfer(walk);
    assert(0 <= f < walk.len() && walk[f] is Transfter) by {
        lemma_break_walk_ends_at_target(stack, current, label, stack.len());
        lemma_first_transfer_exists(walk, walk.len() - 1);
        lemma_first_transfer_bounds(walk);
    }
    assert(f >= 1 && walk[f - 1] == JumpRecordAction::CreateJump) by {
        lemma_break_walk_transfer_after_jump(stack, current, label, stack.len());
    }
    let done = walk.take(f);
    assert(done.last() == JumpRecordAction::CreateJump);
    lemma_last_jump_is_a_jump(done);
    let code = actions_code(done);
    assert(last_jump(done) == code.len() - 1);
    let index = break_record_index(stack, current, label);
    assert(target <= index < stack.len()) by {
        lemma_break_walk_transfers(stack, current, label, stack.len());
        let i = choose|i: int|
            #![trigger stack[i]]
            break_transfers_to(stack, target, i) && i < stack.len() && walk[f]
                == JumpRecordAction::Transfter { index: i as u32 };
        assert(stack[i] == stack[i]);
        assert(index == (i as u32) as int);
    }
}

} // verus!
