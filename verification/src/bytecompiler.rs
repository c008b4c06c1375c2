//! The bytecode compiler's code buffer: emitting instructions, creating jump
//! labels and patching them with their targets.
//!
//! The bytecode is a sequence of words: an instruction takes one word and
//! each of its operands one more.

use vstd::prelude::*;

use crate::interner::Sym;
use crate::jump_control::{append_to_last, jumps_within, JumpControlInfo, JumpControlInfoView, JumpRecord};
use crate::syntax::{block_jumps, Block};
use crate::opcode::Opcode;

verus! {

/// The position of a jump operand in the bytecode, to be patched with the
/// jump's target.
#[derive(Clone, Copy, Debug, PartialEq, Eq, Structural)]
pub struct Label {
    pub index: u32,
}

/// The value a jump operand holds until it is patched.
pub const DUMMY_ADDRESS: u32 = 0xffff_ffff;

/// The compiler state that jump control reads and changes.
pub struct ByteCompiler {
    /// The bytecode emitted so far.
    pub bytecode: Vec<u32>,
    /// The stack of jump control information, innermost statement last.
    pub jump_info: Vec<JumpControlInfo>,
    /// How many environments are open at the current point of compilation.
    pub current_open_environments_count: u32,
    /// How many compile-time environments the code block has recorded.
    pub compile_environments_count: u32,
}

/// The result of writing `target` at each index of `patches`, in order.
pub open spec fn patched(code: Seq<u32>, patches: Seq<(int, u32)>) -> Seq<u32>
    decreases patches.len(),
{
    if patches.len() == 0 {
        code
    } else {
        let last = patches.last();
        patched(code, patches.drop_last()).update(last.0, last.1)
    }
}

/// Every patch writes inside code of length `len`.
pub open spec fn patches_within(patches: Seq<(int, u32)>, len: int) -> bool {
    forall|j: int| 0 <= j < patches.len() ==> 0 <= #[trigger] patches[j].0 < len
}

/// Patching inside the code keeps its length.
pub proof fn lemma_patched_len(code: Seq<u32>, patches: Seq<(int, u32)>)
    requires
        patches_within(patches, code.len() as int),
    ensures
        patched(code, patches).len() == code.len(),
    decreases patches.len(),
{
    if patches.len() > 0 {
        lemma_patched_len(code, patches.drop_last());
    }
}

/// A word that no patch writes keeps its value; a word that exactly one patch
/// writes holds that patch's target.
pub proof fn lemma_patched_at(code: Seq<u32>, patches: Seq<(int, u32)>, k: int)
    requires
        patches_within(patches, code.len() as int),
        0 <= k < code.len(),
    ensures
        (forall|j: int| 0 <= j < patches.len() ==> #[trigger] patches[j].0 != k) ==> patched(
            code,
            patches,
        )[k] == code[k],
        forall|j: int|
            0 <= j < patches.len() && patches[j].0 == k && (forall|l: int|
                0 <= l < patches.len() && l != j ==> #[trigger] patches[l].0 != k) ==> patched(
                code,
                patches,
            )[k] == #[trigger] patches[j].1,
    decreases patches.len(),
{
    if patches.len() > 0 {
        let rest = patches.drop_last();
        let last = patches.len() - 1;
        lemma_patched_at(code, rest, k);
        lemma_patched_len(code, rest);
        assert forall|j: int|
            0 <= j < patches.len() && patches[j].0 == k && (forall|l: int|
                0 <= l < patches.len() && l != j ==> #[trigger] patches[l].0 != k) implies patched(
            code,
            patches,
        )[k] == #[trigger] patches[j].1 by {
            if j < last {
                assert(rest[j] == patches[j]);
                assert(patches[last].0 != k);
                assert forall|l: int| 0 <= l < rest.len() && l != j implies #[trigger] rest[l].0
                    != k by {
                    assert(rest[l] == patches[l]);
                }
            }
        }
        if forall|j: int| 0 <= j < patches.len() ==> #[trigger] patches[j].0 != k {
            assert(patches[last].0 != k);
            assert forall|j: int| 0 <= j < rest.len() implies #[trigger] rest[j].0 != k by {
                assert(rest[j] == patches[j]);
            }
        }
    }
}

impl ByteCompiler {
    /// A compiler with no code, no jump control information and no open
    /// environment.
    pub fn new() -> (r: ByteCompiler)
        ensures
            r.bytecode@ == Seq::<u32>::empty(),
            r.jump_info@ == Seq::<JumpControlInfo>::empty(),
            r.current_open_environments_count == 0,
            r.compile_environments_count == 0,
    {
        ByteCompiler {
            bytecode: Vec::new(),
            jump_info: Vec::new(),
            current_open_environments_count: 0,
            compile_environments_count: 0,
        }
    }

    /// The views of the jump control stack, innermost last.
    pub open spec fn jump_stack(&self) -> Seq<JumpControlInfoView> {
        self.jump_info@.map_values(|info: JumpControlInfo| info@)
    }

    /// The position of the next instruction.
    pub fn next_opcode_location(&self) -> (r: u32)
        requires
            self.bytecode.len() <= u32::MAX,
        ensures
            r == self.bytecode.len(),
    {
        self.bytecode.len() as u32
    }

    /// Appends a word.
    pub fn emit_u32(&mut self, value: u32)
        ensures
            final(self).bytecode@ == old(self).bytecode@.push(value),
            final(self).jump_info == old(self).jump_info,
            final(self).current_open_environments_count == old(self).current_open_environments_count,
            final(self).compile_environments_count == old(self).compile_environments_count,
    {
        self.bytecode.push(value);
    }

    /// Appends an instruction without operands.
    pub fn emit_opcode(&mut self, opcode: Opcode)
        ensures
            final(self).bytecode@ == old(self).bytecode@.push(opcode.code()),
            final(self).jump_info == old(self).jump_info,
            final(self).current_open_environments_count == old(self).current_open_environments_count,
            final(self).compile_environments_count == old(self).compile_environments_count,
    {
        self.bytecode.push(opcode.to_word());
    }

    /// Appends an instruction with one jump operand, not yet patched, and
    /// returns the operand's label.
    pub fn emit_opcode_with_operand(&mut self, opcode: Opcode) -> (label: Label)
        requires
            old(self).bytecode.len() + 2 <= u32::MAX,
        ensures
            final(self).bytecode@ == old(self).bytecode@.push(opcode.code()).push(DUMMY_ADDRESS),
            label.index == old(self).bytecode.len() + 1,
            final(self).jump_info == old(self).jump_info,
            final(self).current_open_environments_count == old(self).current_open_environments_count,
            final(self).compile_environments_count == old(self).compile_environments_count,
    {
        let index = self.next_opcode_location();
        self.emit_opcode(opcode);
        self.emit_u32(DUMMY_ADDRESS);
        Label { index: index + 1 }
    }

    /// Writes `target` into the jump operand at `label`.
    pub fn patch_jump_with_target(&mut self, label: Label, target: u32)
        requires
            label.index < old(self).bytecode.len(),
        ensures
            final(self).bytecode@ == old(self).bytecode@.update(label.index as int, target),
            final(self).jump_info == old(self).jump_info,
            final(self).current_open_environments_count == old(self).current_open_environments_count,
            final(self).compile_environments_count == old(self).compile_environments_count,
    {
        self.bytecode.set(label.index as usize, target);
    }

    /// Makes the jump at `label` go to the next instruction to be emitted.
    pub fn patch_jump(&mut self, label: Label)
        requires
            label.index < old(self).bytecode.len(),
            old(self).bytecode.len() <= u32::MAX,
        ensures
            final(self).bytecode@ == old(self).bytecode@.update(
                label.index as int,
                old(self).bytecode.len() as u32,
            ),
            final(self).jump_info == old(self).jump_info,
            final(self).current_open_environments_count == old(self).current_open_environments_count,
            final(self).compile_environments_count == old(self).compile_environments_count,
    {
        let target = self.next_opcode_location();
        self.patch_jump_with_target(label, target);
    }

    /// Emits an unconditional jump whose target is still to be patched.
    pub fn jump(&mut self) -> (label: Label)
        requires
            old(self).bytecode.len() + 2 <= u32::MAX,
        ensures
            final(self).bytecode@ == old(self).bytecode@.push(Opcode::Jump.code()).push(
                DUMMY_ADDRESS,
            ),
            label.index == old(self).bytecode.len() + 1,
            final(self).jump_info == old(self).jump_info,
            final(self).current_open_environments_count == old(self).current_open_environments_count,
            final(self).compile_environments_count == old(self).compile_environments_count,
    {
        self.emit_opcode_with_operand(Opcode::Jump)
    }

    /// Emits a jump table of `count` entries: the instruction, its default
    /// target, the entry count and one target per entry, all targets still
    /// to be patched. Returns the labels of the entries and of the default.
    pub fn jump_table(&mut self, count: u32) -> (r: (Vec<Label>, Label))
        requires
            old(self).bytecode.len() + 3 + count <= u32::MAX,
        ensures
            final(self).bytecode@ == old(self).bytecode@ + seq![
                Opcode::JumpTable.code(),
                DUMMY_ADDRESS,
                count,
            ] + Seq::new(count as nat, |i: int| DUMMY_ADDRESS),
            r.0.len() == count,
            forall|i: int| 0 <= i < count ==> #[trigger] r.0@[i].index == old(self).bytecode.len() + 3 + i,
            r.1.index == old(self).bytecode.len() + 1,
            final(self).jump_info == old(self).jump_info,
            final(self).current_open_environments_count == old(self).current_open_environments_count,
            final(self).compile_environments_count == old(self).compile_environments_count,
    {
        let index = self.next_opcode_location();
        self.emit_opcode(Opcode::JumpTable);
        self.emit_u32(DUMMY_ADDRESS);
        self.emit_u32(count);
        let ghost start = self.bytecode@;
        let mut labels: Vec<Label> = Vec::new();
        let mut i: u32 = 0;
        while i < count
            invariant
                i <= count,
                index == old(self).bytecode.len(),
                start == old(self).bytecode@ + seq![Opcode::JumpTable.code(), DUMMY_ADDRESS, count],
                self.bytecode@ == start + Seq::new(i as nat, |k: int| DUMMY_ADDRESS),
                labels.len() == i,
                forall|k: int| 0 <= k < i ==> #[trigger] labels@[k].index == index + 3 + k,
                index + 3 + count <= u32::MAX,
                self.jump_info == old(self).jump_info,
                self.current_open_environments_count == old(self).current_open_environments_count,
                self.compile_environments_count == old(self).compile_environments_count,
            decreases count - i,
        {
            labels.push(Label { index: index + 3 + i });
            self.emit_u32(DUMMY_ADDRESS);
            assert(self.bytecode@ =~= start + Seq::new((i + 1) as nat, |k: int| DUMMY_ADDRESS));
            i = i + 1;
        }
        (labels, Label { index: index + 1 })
    }

    /// Emits an instruction that pushes the integer `value`.
    pub fn emit_push_integer(&mut self, value: i32)
        ensures
            final(self).bytecode@ == old(self).bytecode@.push(Opcode::PushInt32.code()).push(
                value as u32,
            ),
            final(self).jump_info == old(self).jump_info,
            final(self).current_open_environments_count == old(self).current_open_environments_count,
            final(self).compile_environments_count == old(self).compile_environments_count,
    {
        self.emit_opcode(Opcode::PushInt32);
        self.emit_u32(value as u32);
    }

    /// Emits the instruction that closes the iterator of the innermost
    /// iterator loop, awaiting it for an asynchronous one.
    pub fn iterator_close(&mut self, is_async: bool)
        ensures
            final(self).bytecode@ == old(self).bytecode@.push(iterator_close_code(is_async)),
            final(self).jump_info == old(self).jump_info,
            final(self).current_open_environments_count == old(self).current_open_environments_count,
            final(self).compile_environments_count == old(self).compile_environments_count,
    {
        if is_async {
            self.emit_opcode(Opcode::AsyncIteratorClose);
        } else {
            self.emit_opcode(Opcode::IteratorClose);
        }
    }
}

/// The word of the instruction that closes an iterator.
pub open spec fn iterator_close_code(is_async: bool) -> u32 {
    if is_async {
        Opcode::AsyncIteratorClose.code()
    } else {
        Opcode::IteratorClose.code()
    }
}

/// Whether `after` is `before` with only its bytecode changed.
pub open spec fn only_code_changed(before: ByteCompiler, after: ByteCompiler) -> bool {
    &&& after.jump_info == before.jump_info
    &&& after.current_open_environments_count == before.current_open_environments_count
    &&& after.compile_environments_count == before.compile_environments_count
}

impl ByteCompiler {
    /// Appends an instruction with two jump operands, not yet patched, and
    /// returns the operands' labels.
    pub fn emit_opcode_with_two_operands(&mut self, opcode: Opcode) -> (r: (Label, Label))
        requires
            old(self).bytecode.len() + 3 <= u32::MAX,
        ensures
            final(self).bytecode@ == old(self).bytecode@ + seq![opcode.code(), DUMMY_ADDRESS, DUMMY_ADDRESS],
            r.0.index == old(self).bytecode.len() + 1,
            r.1.index == old(self).bytecode.len() + 2,
            only_code_changed(*old(self), *final(self)),
    {
        let index = self.next_opcode_location();
        self.emit_opcode(opcode);
        self.emit_u32(DUMMY_ADDRESS);
        self.emit_u32(DUMMY_ADDRESS);
        assert(self.bytecode@ =~= old(self).bytecode@ + seq![opcode.code(), DUMMY_ADDRESS, DUMMY_ADDRESS]);
        (Label { index: index + 1 }, Label { index: index + 2 })
    }

    /// Emits a jump taken when the popped value is false, its target still to
    /// be patched.
    pub fn jump_if_false(&mut self) -> (label: Label)
        requires
            old(self).bytecode.len() + 2 <= u32::MAX,
        ensures
            final(self).bytecode@ == old(self).bytecode@.push(Opcode::JumpIfFalse.code()).push(
                DUMMY_ADDRESS,
            ),
            label.index == old(self).bytecode.len() + 1,
            only_code_changed(*old(self), *final(self)),
    {
        self.emit_opcode_with_operand(Opcode::JumpIfFalse)
    }

    /// Emits the code of `block`, leaving its jumps unrecorded.
    pub(crate) fn emit_block_code(&mut self, block: &Block)
        ensures
            final(self).bytecode@ == old(self).bytecode@ + block.code@,
            only_code_changed(*old(self), *final(self)),
    {
        let n = block.code.len();
        let mut i: usize = 0;
        while i < n
            invariant
                i <= n,
                n == block.code.len(),
                self.bytecode@ == old(self).bytecode@ + block.code@.take(i as int),
                only_code_changed(*old(self), *self),
            decreases n - i,
        {
            self.emit_u32(block.code[i]);
            assert(block.code@.take(i + 1) =~= block.code@.take(i as int).push(block.code@[i as int]));
            i = i + 1;
        }
        assert(block.code@.take(n as int) =~= block.code@);
    }

    /// Records the jumps of `block`, compiled at `start`, in the information
    /// at `index`.
    pub(crate) fn record_block_jumps(&mut self, block: &Block, start: u32, index: usize)
        requires
            index < old(self).jump_info.len(),
            block.well_formed(),
            start + block.code.len() <= u32::MAX,
        ensures
            final(self).jump_stack() == old(self).jump_stack().update(
                index as int,
                old(self).jump_stack()[index as int].with_jumps_appended(block_jumps(*block, start as int)),
            ),
            final(self).jump_info.len() == old(self).jump_info.len(),
            final(self).bytecode == old(self).bytecode,
            final(self).current_open_environments_count == old(self).current_open_environments_count,
            final(self).compile_environments_count == old(self).compile_environments_count,
    {
        let ghost stack = self.jump_stack();
        let ghost all = block_jumps(*block, start as int);
        let n = block.jumps.len();
        let mut i: usize = 0;
        assert(all.take(0) =~= Seq::<JumpRecord>::empty());
        assert(stack[index as int].with_jumps_appended(Seq::empty()) =~= stack[index as int]);
        assert(stack.update(index as int, stack[index as int]) =~= stack);
        while i < n
            invariant
                i <= n,
                n == block.jumps.len(),
                index < stack.len(),
                stack.len() == self.jump_info.len(),
                all == block_jumps(*block, start as int),
                block.well_formed(),
                start + block.code.len() <= u32::MAX,
                self.jump_stack() == stack.update(
                    index as int,
                    stack[index as int].with_jumps_appended(all.take(i as int)),
                ),
                self.bytecode == old(self).bytecode,
                stack == old(self).jump_stack(),
                self.current_open_environments_count == old(self).current_open_environments_count,
                self.compile_environments_count == old(self).compile_environments_count,
            decreases n - i,
        {
            let r = block.jumps[i];
            assert(r.address.index < block.code.len());
            let record = JumpRecord {
                address: Label { index: r.address.index + start },
                ..r
            };
            assert(record == all[i as int]);
            self.push_jump_record_at(index, record);
            assert(all.take(i + 1) =~= all.take(i as int).push(record));
            assert(stack[index as int].jumps + all.take(i as int) + seq![record] =~= stack[index as int].jumps
                + all.take(i + 1));
            assert(stack[index as int].with_jumps_appended(all.take(i as int)).with_jumps_appended(seq![record])
                == stack[index as int].with_jumps_appended(all.take(i + 1)));
            assert(self.jump_stack() =~= stack.update(
                index as int,
                stack[index as int].with_jumps_appended(all.take(i + 1)),
            ));
            i = i + 1;
        }
        assert(all.take(n as int) =~= all);
    }

    /// Emits the code of `block` and records its jumps in the innermost
    /// information.
    pub fn compile_block(&mut self, block: &Block, _use_expr: bool)
        requires
            block.well_formed(),
            old(self).bytecode.len() + block.code.len() <= u32::MAX,
            block.jumps.len() > 0 ==> old(self).jump_info.len() > 0,
        ensures
            final(self).bytecode@ == old(self).bytecode@ + block.code@,
            final(self).jump_stack() == append_to_last(
                old(self).jump_stack(),
                block_jumps(*block, old(self).bytecode.len() as int),
            ),
            jumps_within(block_jumps(*block, old(self).bytecode.len() as int), final(self).bytecode.len() as int),
            final(self).jump_info.len() == old(self).jump_info.len(),
            final(self).current_open_environments_count == old(self).current_open_environments_count,
            final(self).compile_environments_count == old(self).compile_environments_count,
    {
        let ghost stack = self.jump_stack();
        let start = self.next_opcode_location();
        self.emit_block_code(block);
        let ghost all = block_jumps(*block, start as int);
        if block.jumps.len() > 0 {
            let last = self.jump_info.len() - 1;
            self.record_block_jumps(block, start, last);
        } else {
            proof {
                assert(all =~= Seq::<JumpRecord>::empty());
                if stack.len() > 0 {
                    assert(stack.last().with_jumps_appended(all) =~= stack.last());
                    assert(stack.update(stack.len() - 1, stack.last()) =~= stack);
                }
            }
        }
        assert forall|i: int| 0 <= i < all.len() implies #[trigger] all[i].address.index < self.bytecode.len() by {
            assert(block.jumps@[i].address.index < block.code.len());
        }
    }

    /// Opens a compile-time environment: one more environment is open.
    pub fn push_compile_environment(&mut self, _function_scope: bool)
        requires
            old(self).current_open_environments_count < u32::MAX,
        ensures
            final(self).current_open_environments_count == old(self).current_open_environments_count + 1,
            final(self).bytecode == old(self).bytecode,
            final(self).jump_info == old(self).jump_info,
            final(self).compile_environments_count == old(self).compile_environments_count,
    {
        self.current_open_environments_count = self.current_open_environments_count + 1;
    }

    /// Closes the innermost compile-time environment, records it in the code
    /// block and returns its index there.
    pub fn pop_compile_environment(&mut self) -> (index: u32)
        requires
            old(self).current_open_environments_count > 0,
            old(self).compile_environments_count < u32::MAX,
        ensures
            index == old(self).compile_environments_count,
            final(self).compile_environments_count == old(self).compile_environments_count + 1,
            final(self).current_open_environments_count == old(self).current_open_environments_count - 1,
            final(self).bytecode == old(self).bytecode,
            final(self).jump_info == old(self).jump_info,
    {
        self.current_open_environments_count = self.current_open_environments_count - 1;
        let index = self.compile_environments_count;
        self.compile_environments_count = self.compile_environments_count + 1;
        index
    }

    /// Emits the initialisation of the `let` binding `ident` with the value
    /// on top of the stack.
    pub fn emit_binding_init_let(&mut self, ident: Sym)
        ensures
            final(self).bytecode@ == old(self).bytecode@.push(Opcode::DefInitLet.code()).push(
                ident@ as u32,
            ),
            only_code_changed(*old(self), *final(self)),
    {
        self.emit_opcode(Opcode::DefInitLet);
        self.emit_u32(ident.get() as u32);
    }
}

} // verus!
