//! `JumpControlInfo` tracks the jumps (`break` and `continue`) of iteration,
//! switch, try and labelled statements while they are compiled, and patches
//! them when the statement's compilation ends.

use vstd::prelude::*;

use crate::bytecompiler::{patched, ByteCompiler, Label, DUMMY_ADDRESS};
use crate::opcode::Opcode;
use crate::interner::Sym;

verus! {

/// Whether a recorded jump is a `break` or a `continue`.
#[derive(Clone, Copy, Debug, PartialEq, Eq, Structural)]
pub enum JumpRecordKind {
    Break,
    Continue,
}

/// A jump whose target is not known yet.
#[derive(Clone, Copy, Debug)]
pub struct JumpRecord {
    pub kind: JumpRecordKind,
    /// The label of the `break` or `continue`, if it has one.
    pub label: Option<Sym>,
    /// The jump operand to patch.
    pub address: Label,
    /// The index of the jump control information the jump finally targets,
    /// where it crosses a `finally`.
    pub target_index: Option<usize>,
}

impl JumpRecord {
    pub fn new(
        kind: JumpRecordKind,
        label: Option<Sym>,
        address: Label,
        target_index: Option<usize>,
    ) -> (r: Self)
        ensures
            r == (JumpRecord { kind, label, address, target_index }),
    {
        JumpRecord { kind, label, address, target_index }
    }

    pub fn label(&self) -> (r: Option<Sym>)
        ensures
            r == self.label,
    {
        self.label
    }

    pub fn target_index(&self) -> (r: Option<usize>)
        ensures
            r == self.target_index,
    {
        self.target_index
    }
}

/// The type flags and relevant booleans of a `JumpControlInfo`, one bit each.
#[derive(Clone, Copy, Debug)]
pub struct JumpControlInfoFlags {
    pub bits: u16,
}

/// Whether all bits of `flag` are set in `bits`.
pub open spec fn has_flag(bits: u16, flag: u16) -> bool {
    bits & flag == flag
}

/// `bits` with the bits of `flag` set to `value`.
pub open spec fn set_flag(bits: u16, flag: u16, value: bool) -> u16 {
    if value {
        bits | flag
    } else {
        bits & !flag
    }
}

/// A flag is a single bit.
pub open spec fn single_bit(flag: u16) -> bool {
    flag != 0 && flag & ((flag - 1) as u16) == 0
}

impl JumpControlInfoFlags {
    pub const LOOP: u16 = 0b0000_0001;
    pub const SWITCH: u16 = 0b0000_0010;
    pub const TRY_BLOCK: u16 = 0b0000_0100;
    pub const LABELLED: u16 = 0b0000_1000;
    /// Set while the `finally` block of a try statement is compiled.
    pub const IN_FINALLY: u16 = 0b0001_0000;
    pub const HAS_FINALLY: u16 = 0b0010_0000;
    pub const ITERATOR_LOOP: u16 = 0b0100_0000;
    pub const FOR_AWAIT_OF_LOOP: u16 = 0b1000_0000;
    /// Is the statement compiled with `use_expr` set to true. A new
    /// `JumpControlInfo` inherits it from the previous one.
    pub const USE_EXPR: u16 = 0b0001_0000_0000;
    /// Does a `break` or `continue` require special finally code generation.
    pub const REQUIRE_FINALLY_HANDLING: u16 = 0b0010_0000_0000;

    /// No flag set.
    pub fn empty() -> (r: Self)
        ensures
            r.bits == 0,
    {
        JumpControlInfoFlags { bits: 0 }
    }

    /// Whether all bits of `flag` are set.
    pub fn contains(&self, flag: u16) -> (r: bool)
        ensures
            r == has_flag(self.bits, flag),
    {
        self.bits & flag == flag
    }

    /// Sets or clears the bits of `flag`.
    pub fn set(&mut self, flag: u16, value: bool)
        ensures
            final(self).bits == set_flag(old(self).bits, flag, value),
    {
        if value {
            self.bits = self.bits | flag;
        } else {
            self.bits = self.bits & !flag;
        }
    }

    /// The bits set in both.
    pub fn intersection(self, other: Self) -> (r: Self)
        ensures
            r.bits == self.bits & other.bits,
    {
        JumpControlInfoFlags { bits: self.bits & other.bits }
    }

    /// Sets the bits of `other` too.
    pub fn insert(&mut self, other: Self)
        ensures
            final(self).bits == old(self).bits | other.bits,
    {
        self.bits = self.bits | other.bits;
    }
}

impl Default for JumpControlInfoFlags {
    fn default() -> (r: Self)
        ensures
            r.bits == 0,
    {
        Self::empty()
    }
}

/// Each named flag is a single bit.
pub proof fn lemma_flags_single_bits()
    ensures
        single_bit(JumpControlInfoFlags::LOOP),
        single_bit(JumpControlInfoFlags::SWITCH),
        single_bit(JumpControlInfoFlags::TRY_BLOCK),
        single_bit(JumpControlInfoFlags::LABELLED),
        single_bit(JumpControlInfoFlags::IN_FINALLY),
        single_bit(JumpControlInfoFlags::HAS_FINALLY),
        single_bit(JumpControlInfoFlags::ITERATOR_LOOP),
        single_bit(JumpControlInfoFlags::FOR_AWAIT_OF_LOOP),
        single_bit(JumpControlInfoFlags::USE_EXPR),
        single_bit(JumpControlInfoFlags::REQUIRE_FINALLY_HANDLING),
{
    assert(1u16 & 0u16 == 0 && 2u16 & 1u16 == 0 && 4u16 & 3u16 == 0 && 8u16 & 7u16 == 0 && 16u16
        & 15u16 == 0 && 32u16 & 31u16 == 0 && 64u16 & 63u16 == 0 && 128u16 & 127u16 == 0 && 256u16
        & 255u16 == 0 && 512u16 & 511u16 == 0) by (bit_vector);
}

/// Setting one flag to `value` makes it read `value` and leaves every other
/// flag as it was.
pub proof fn lemma_set_flag(bits: u16, flag: u16, other: u16, value: bool)
    requires
        single_bit(flag),
        single_bit(other),
    ensures
        has_flag(set_flag(bits, flag, value), flag) == value,
        other != flag ==> has_flag(set_flag(bits, flag, value), other) == has_flag(bits, other),
{
    assert(flag != 0 && flag & ((flag - 1) as u16) == 0 && other != 0 && other & ((other - 1) as u16)
        == 0 ==> (((if value {
        bits | flag
    } else {
        bits & !flag
    }) & flag == flag) == value) && (other != flag ==> (((if value {
        bits | flag
    } else {
        bits & !flag
    }) & other == other) == (bits & other == other)))) by (bit_vector);
}

/// Or-ing in the `USE_EXPR` bit of `parent` sets `USE_EXPR` when either has
/// it and leaves every other flag as it was.
pub proof fn lemma_inherit_use_expr(bits: u16, parent: u16, other: u16)
    requires
        single_bit(other),
    ensures
        has_flag(bits | (parent & JumpControlInfoFlags::USE_EXPR), JumpControlInfoFlags::USE_EXPR)
            == (has_flag(bits, JumpControlInfoFlags::USE_EXPR) || has_flag(
            parent,
            JumpControlInfoFlags::USE_EXPR,
        )),
        other != JumpControlInfoFlags::USE_EXPR ==> has_flag(
            bits | (parent & JumpControlInfoFlags::USE_EXPR),
            other,
        ) == has_flag(bits, other),
{
    assert(((bits | (parent & 256u16)) & 256u16 == 256u16) == ((bits & 256u16 == 256u16) || (parent
        & 256u16 == 256u16))) by (bit_vector);
    assert(other != 0 && other & ((other - 1) as u16) == 0 && other != 256u16 ==> (((bits | (parent
        & 256u16)) & other == other) == (bits & other == other))) by (bit_vector);
}

/// The jump information of one statement, as the contracts see it.
#[verifier::ext_equal]
pub struct JumpControlInfoView {
    pub label: Option<Sym>,
    pub start_address: u32,
    pub flags: u16,
    pub jumps: Seq<JumpRecord>,
    pub open_environments: u32,
}

impl JumpControlInfoView {
    pub open spec fn is_loop(self) -> bool {
        has_flag(self.flags, JumpControlInfoFlags::LOOP)
    }

    pub open spec fn is_switch(self) -> bool {
        has_flag(self.flags, JumpControlInfoFlags::SWITCH)
    }

    pub open spec fn is_try_block(self) -> bool {
        has_flag(self.flags, JumpControlInfoFlags::TRY_BLOCK)
    }

    pub open spec fn is_labelled(self) -> bool {
        has_flag(self.flags, JumpControlInfoFlags::LABELLED)
    }

    pub open spec fn in_finally(self) -> bool {
        has_flag(self.flags, JumpControlInfoFlags::IN_FINALLY)
    }

    pub open spec fn has_finally(self) -> bool {
        has_flag(self.flags, JumpControlInfoFlags::HAS_FINALLY)
    }

    pub open spec fn use_expr(self) -> bool {
        has_flag(self.flags, JumpControlInfoFlags::USE_EXPR)
    }

    pub open spec fn iterator_loop(self) -> bool {
        has_flag(self.flags, JumpControlInfoFlags::ITERATOR_LOOP)
    }

    pub open spec fn for_await_of_loop(self) -> bool {
        has_flag(self.flags, JumpControlInfoFlags::FOR_AWAIT_OF_LOOP)
    }

    /// This information with its flags replaced.
    pub open spec fn with_flags(self, flags: u16) -> Self {
        JumpControlInfoView { flags, ..self }
    }

    /// This information with `extra` recorded after its jumps.
    pub open spec fn with_jumps_appended(self, extra: Seq<JumpRecord>) -> Self {
        JumpControlInfoView { jumps: self.jumps + extra, ..self }
    }
}

/// The jump information of one statement being compiled.
pub struct JumpControlInfo {
    pub label: Option<Sym>,
    pub start_address: u32,
    pub flags: JumpControlInfoFlags,
    pub jumps: Vec<JumpRecord>,
    /// How many environments were open when the statement began.
    pub current_open_environments_count: u32,
}

impl View for JumpControlInfo {
    type V = JumpControlInfoView;

    open spec fn view(&self) -> JumpControlInfoView {
        JumpControlInfoView {
            label: self.label,
            start_address: self.start_address,
            flags: self.flags.bits,
            jumps: self.jumps@,
            open_environments: self.current_open_environments_count,
        }
    }
}

/// The information a statement starts with: no label, no start address yet,
/// no flag and no jump.
pub open spec fn fresh_info(open_environments: u32) -> JumpControlInfoView {
    JumpControlInfoView {
        label: None,
        start_address: u32::MAX,
        flags: 0,
        jumps: Seq::empty(),
        open_environments,
    }
}

// ---- `JumpControlInfo` creation methods ----
impl JumpControlInfo {
    pub fn new(current_open_environments_count: u32) -> (r: Self)
        ensures
            r@ == fresh_info(current_open_environments_count),
    {
        JumpControlInfo {
            label: None,
            start_address: u32::MAX,
            flags: JumpControlInfoFlags::default(),
            jumps: Vec::new(),
            current_open_environments_count,
        }
    }

    pub fn with_label(self, label: Option<Sym>) -> (r: Self)
        ensures
            r@ == (JumpControlInfoView { label, ..self@ }),
    {
        let mut s = self;
        s.label = label;
        s
    }

    pub fn with_start_address(self, address: u32) -> (r: Self)
        ensures
            r@ == (JumpControlInfoView { start_address: address, ..self@ }),
    {
        let mut s = self;
        s.start_address = address;
        s
    }

    pub fn with_loop_flag(self, value: bool) -> (r: Self)
        ensures
            r@ == self@.with_flags(set_flag(self@.flags, JumpControlInfoFlags::LOOP, value)),
    {
        let mut s = self;
        s.flags.set(JumpControlInfoFlags::LOOP, value);
        s
    }

    pub fn with_switch_flag(self, value: bool) -> (r: Self)
        ensures
            r@ == self@.with_flags(set_flag(self@.flags, JumpControlInfoFlags::SWITCH, value)),
    {
        let mut s = self;
        s.flags.set(JumpControlInfoFlags::SWITCH, value);
        s
    }

    pub fn with_try_block_flag(self, value: bool) -> (r: Self)
        ensures
            r@ == self@.with_flags(set_flag(self@.flags, JumpControlInfoFlags::TRY_BLOCK, value)),
    {
        let mut s = self;
        s.flags.set(JumpControlInfoFlags::TRY_BLOCK, value);
        s
    }

    pub fn with_labelled_block_flag(self, value: bool) -> (r: Self)
        ensures
            r@ == self@.with_flags(set_flag(self@.flags, JumpControlInfoFlags::LABELLED, value)),
    {
        let mut s = self;
        s.flags.set(JumpControlInfoFlags::LABELLED, value);
        s
    }

    pub fn with_has_finally(self, value: bool) -> (r: Self)
        ensures
            r@ == self@.with_flags(set_flag(self@.flags, JumpControlInfoFlags::HAS_FINALLY, value)),
    {
        let mut s = self;
        s.flags.set(JumpControlInfoFlags::HAS_FINALLY, value);
        s
    }

    pub fn with_iterator_loop(self, value: bool) -> (r: Self)
        ensures
            r@ == self@.with_flags(
                set_flag(self@.flags, JumpControlInfoFlags::ITERATOR_LOOP, value),
            ),
    {
        let mut s = self;
        s.flags.set(JumpControlInfoFlags::ITERATOR_LOOP, value);
        s
    }

    pub fn with_for_await_of_loop(self, value: bool) -> (r: Self)
        ensures
            r@ == self@.with_flags(
                set_flag(self@.flags, JumpControlInfoFlags::FOR_AWAIT_OF_LOOP, value),
            ),
    {
        let mut s = self;
        s.flags.set(JumpControlInfoFlags::FOR_AWAIT_OF_LOOP, value);
        s
    }
}

// ---- `JumpControlInfo` getters ----
impl JumpControlInfo {
    pub fn label(&self) -> (r: Option<Sym>)
        ensures
            r == self@.label,
    {
        self.label
    }

    pub fn start_address(&self) -> (r: u32)
        ensures
            r == self@.start_address,
    {
        self.start_address
    }

    pub fn is_loop(&self) -> (r: bool)
        ensures
            r == self@.is_loop(),
    {
        self.flags.contains(JumpControlInfoFlags::LOOP)
    }

    pub fn is_switch(&self) -> (r: bool)
        ensures
            r == self@.is_switch(),
    {
        self.flags.contains(JumpControlInfoFlags::SWITCH)
    }

    pub fn is_try_block(&self) -> (r: bool)
        ensures
            r == self@.is_try_block(),
    {
        self.flags.contains(JumpControlInfoFlags::TRY_BLOCK)
    }

    pub fn is_labelled(&self) -> (r: bool)
        ensures
            r == self@.is_labelled(),
    {
        self.flags.contains(JumpControlInfoFlags::LABELLED)
    }

    pub fn in_finally(&self) -> (r: bool)
        ensures
            r == self@.in_finally(),
    {
        self.flags.contains(JumpControlInfoFlags::IN_FINALLY)
    }

    pub fn has_finally(&self) -> (r: bool)
        ensures
            r == self@.has_finally(),
    {
        self.flags.contains(JumpControlInfoFlags::HAS_FINALLY)
    }

    pub fn use_expr(&self) -> (r: bool)
        ensures
            r == self@.use_expr(),
    {
        self.flags.contains(JumpControlInfoFlags::USE_EXPR)
    }

    pub fn iterator_loop(&self) -> (r: bool)
        ensures
            r == self@.iterator_loop(),
    {
        self.flags.contains(JumpControlInfoFlags::ITERATOR_LOOP)
    }

    pub fn for_await_of_loop(&self) -> (r: bool)
        ensures
            r == self@.for_await_of_loop(),
    {
        self.flags.contains(JumpControlInfoFlags::FOR_AWAIT_OF_LOOP)
    }
}

// ---- `JumpControlInfo` interaction methods ----
impl JumpControlInfo {
    /// Sets the label; a statement gets its label once.
    pub fn set_label(&mut self, label: Option<Sym>)
        requires
            old(self).label.is_none(),
        ensures
            final(self)@ == (JumpControlInfoView { label, ..old(self)@ }),
    {
        self.label = label;
    }

    pub fn set_start_address(&mut self, start_address: u32)
        ensures
            final(self)@ == (JumpControlInfoView { start_address, ..old(self)@ }),
    {
        self.start_address = start_address;
    }

    /// Records a `break` whose operand is at `address`.
    pub fn push_break_label(&mut self, label: Option<Sym>, address: Label, final_target: Option<usize>)
        ensures
            final(self)@ == old(self)@.with_jumps_appended(
                seq![JumpRecord { kind: JumpRecordKind::Break, label, address, target_index: final_target }],
            ),
    {
        self.jumps.push(JumpRecord::new(JumpRecordKind::Break, label, address, final_target));
        assert(self@.jumps =~= old(self)@.jumps + seq![JumpRecord { kind: JumpRecordKind::Break, label, address, target_index: final_target }]);
    }

    /// Records a `continue` whose operand is at `address`.
    pub fn push_continue_label(
        &mut self,
        label: Option<Sym>,
        address: Label,
        final_target: Option<usize>,
    )
        ensures
            final(self)@ == old(self)@.with_jumps_appended(
                seq![JumpRecord { kind: JumpRecordKind::Continue, label, address, target_index: final_target }],
            ),
    {
        self.jumps.push(JumpRecord::new(JumpRecordKind::Continue, label, address, final_target));
        assert(self@.jumps =~= old(self)@.jumps + seq![JumpRecord { kind: JumpRecordKind::Continue, label, address, target_index: final_target }]);
    }
}

/// The flags a statement's information gets when it is pushed onto `stack`:
/// its own flags with `USE_EXPR` set to `use_expr`, together with the
/// `USE_EXPR` flag of the innermost information, which it inherits.
pub open spec fn pushed_flags(flags: u16, use_expr: bool, stack: Seq<JumpControlInfoView>) -> u16 {
    let own = set_flag(flags, JumpControlInfoFlags::USE_EXPR, use_expr);
    if stack.len() > 0 {
        own | (stack.last().flags & JumpControlInfoFlags::USE_EXPR)
    } else {
        own
    }
}

/// `info` as it stands on the stack once pushed onto `stack`.
pub open spec fn pushed_info(
    info: JumpControlInfoView,
    use_expr: bool,
    stack: Seq<JumpControlInfoView>,
) -> JumpControlInfoView {
    info.with_flags(pushed_flags(info.flags, use_expr, stack))
}

/// The information a statement is pushed with.
pub open spec fn statement_info(
    open_environments: u32,
    label: Option<Sym>,
    start_address: u32,
    flags: u16,
) -> JumpControlInfoView {
    JumpControlInfoView { label, start_address, flags, jumps: Seq::empty(), open_environments }
}

/// A pushed statement uses its expression value when it is asked to or when
/// the statement around it does, and keeps every other flag it was given.
pub proof fn lemma_pushed_flags(
    flags: u16,
    use_expr: bool,
    stack: Seq<JumpControlInfoView>,
    other: u16,
)
    requires
        single_bit(other),
    ensures
        has_flag(pushed_flags(flags, use_expr, stack), JumpControlInfoFlags::USE_EXPR) == (use_expr
            || (stack.len() > 0 && stack.last().use_expr())),
        other != JumpControlInfoFlags::USE_EXPR ==> has_flag(
            pushed_flags(flags, use_expr, stack),
            other,
        ) == has_flag(flags, other),
{
    lemma_flags_single_bits();
    let own = set_flag(flags, JumpControlInfoFlags::USE_EXPR, use_expr);
    lemma_set_flag(flags, JumpControlInfoFlags::USE_EXPR, other, use_expr);
    lemma_set_flag(flags, JumpControlInfoFlags::USE_EXPR, JumpControlInfoFlags::USE_EXPR, use_expr);
    if stack.len() > 0 {
        lemma_inherit_use_expr(own, stack.last().flags, other);
        lemma_inherit_use_expr(own, stack.last().flags, JumpControlInfoFlags::USE_EXPR);
    }
}

/// `stack` with `extra` recorded after the jumps of its innermost
/// information, if it has one.
pub open spec fn append_to_last(
    stack: Seq<JumpControlInfoView>,
    extra: Seq<JumpRecord>,
) -> Seq<JumpControlInfoView> {
    if stack.len() == 0 {
        stack
    } else {
        stack.update(stack.len() - 1, stack.last().with_jumps_appended(extra))
    }
}

/// Appending jumps one after another appends them all.
pub proof fn lemma_append_to_last_push(
    stack: Seq<JumpControlInfoView>,
    extra: Seq<JumpRecord>,
    record: JumpRecord,
)
    requires
        stack.len() > 0,
    ensures
        append_to_last(append_to_last(stack, extra), seq![record]) == append_to_last(
            stack,
            extra.push(record),
        ),
{
    let last = stack.last();
    assert(last.jumps + extra + seq![record] =~= last.jumps + extra.push(record));
    assert(last.with_jumps_appended(extra).with_jumps_appended(seq![record])
        =~= last.with_jumps_appended(extra.push(record)));
    assert(append_to_last(append_to_last(stack, extra), seq![record]) =~= append_to_last(
        stack,
        extra.push(record),
    ));
}

/// Every jump operand of `jumps` lies inside code of length `len`.
pub open spec fn jumps_within(jumps: Seq<JumpRecord>, len: int) -> bool {
    forall|i: int| 0 <= i < jumps.len() ==> #[trigger] jumps[i].address.index < len
}

/// The patches that send each `break` of `jumps` to `break_target` and each
/// `continue` to `continue_target`.
pub open spec fn jump_patches(
    jumps: Seq<JumpRecord>,
    break_target: u32,
    continue_target: u32,
) -> Seq<(int, u32)> {
    jumps.map_values(
        |r: JumpRecord|
            (
                r.address.index as int,
                if r.kind == JumpRecordKind::Break {
                    break_target
                } else {
                    continue_target
                },
            ),
    )
}

/// The jumps of `jumps` that satisfy `keep`, in their order.
pub open spec fn select(jumps: Seq<JumpRecord>, keep: spec_fn(JumpRecord) -> bool) -> Seq<JumpRecord>
    decreases jumps.len(),
{
    if jumps.len() == 0 {
        jumps
    } else {
        let rest = select(jumps.drop_last(), keep);
        if keep(jumps.last()) {
            rest.push(jumps.last())
        } else {
            rest
        }
    }
}

/// A jump that satisfies `keep` is selected, so the selection is not empty.
pub proof fn lemma_select_nonempty(jumps: Seq<JumpRecord>, keep: spec_fn(JumpRecord) -> bool, i: int)
    requires
        0 <= i < jumps.len(),
        keep(jumps[i]),
    ensures
        select(jumps, keep).len() > 0,
    decreases jumps.len(),
{
    if i < jumps.len() - 1 {
        lemma_select_nonempty(jumps.drop_last(), keep, i);
    }
}

/// A selected jump lies wherever all selected jumps lie.
pub proof fn lemma_select_within(
    jumps: Seq<JumpRecord>,
    keep: spec_fn(JumpRecord) -> bool,
    i: int,
    len: int,
)
    requires
        0 <= i < jumps.len(),
        keep(jumps[i]),
        jumps_within(select(jumps, keep), len),
    ensures
        jumps[i].address.index < len,
    decreases jumps.len(),
{
    let rest = select(jumps.drop_last(), keep);
    if i < jumps.len() - 1 {
        if keep(jumps.last()) {
            assert forall|j: int| 0 <= j < rest.len() implies #[trigger] rest[j].address.index < len by {
                assert(select(jumps, keep)[j] == rest[j]);
            }
        }
        lemma_select_within(jumps.drop_last(), keep, i, len);
    } else {
        assert(select(jumps, keep)[rest.len() as int] == jumps[i]);
    }
}

/// The jumps of `jumps` that carry `label`.
pub open spec fn jumps_with_label(jumps: Seq<JumpRecord>, label: Option<Sym>) -> Seq<JumpRecord> {
    select(jumps, |r: JumpRecord| r.label == label)
}

/// The jumps of `jumps` that do not carry `label`.
pub open spec fn jumps_without_label(jumps: Seq<JumpRecord>, label: Option<Sym>) -> Seq<
    JumpRecord,
> {
    select(jumps, |r: JumpRecord| r.label != label)
}

/// The jumps of `jumps` of the given kind.
pub open spec fn jumps_of_kind(jumps: Seq<JumpRecord>, kind: JumpRecordKind) -> Seq<JumpRecord> {
    select(jumps, |r: JumpRecord| r.kind == kind)
}

/// Whether two optional labels are the same.
pub fn same_label(a: Option<Sym>, b: Option<Sym>) -> (r: bool)
    ensures
        r == (a == b),
{
    match (a, b) {
        (Some(x), Some(y)) => x == y,
        (None, None) => true,
        _ => false,
    }
}

// `JumpControlInfo` related methods that are implemented on `ByteCompiler`.
impl ByteCompiler {
    /// Records `record` in the information at `index`.
    pub(crate) fn push_jump_record_at(&mut self, index: usize, record: JumpRecord)
        requires
            index < old(self).jump_info.len(),
        ensures
            final(self).jump_stack() == old(self).jump_stack().update(
                index as int,
                old(self).jump_stack()[index as int].with_jumps_appended(seq![record]),
            ),
            final(self).jump_info.len() == old(self).jump_info.len(),
            final(self).bytecode == old(self).bytecode,
            final(self).current_open_environments_count == old(self).current_open_environments_count,
            final(self).compile_environments_count == old(self).compile_environments_count,
    {
        let mut info = JumpControlInfo::new(0);
        self.jump_info.set_and_swap(index, &mut info);
        info.jumps.push(record);
        assert(info@ =~= old(self).jump_stack()[index as int].with_jumps_appended(seq![record]));
        self.jump_info.set(index, info);
        assert(self.jump_stack() =~= old(self).jump_stack().update(
            index as int,
            old(self).jump_stack()[index as int].with_jumps_appended(seq![record]),
        ));
    }

    /// Records `record` in the innermost information.
    fn push_jump_record_to_last(&mut self, record: JumpRecord)
        requires
            old(self).jump_info.len() > 0,
        ensures
            final(self).jump_stack() == append_to_last(old(self).jump_stack(), seq![record]),
            final(self).jump_info.len() == old(self).jump_info.len(),
            final(self).bytecode == old(self).bytecode,
            final(self).current_open_environments_count == old(self).current_open_environments_count,
            final(self).compile_environments_count == old(self).compile_environments_count,
    {
        let last = self.jump_info.len() - 1;
        self.push_jump_record_at(last, record);
    }

    /// Pushes a generic loop's information onto the stack.
    pub fn push_empty_loop_jump_control(&mut self, use_expr: bool)
        ensures
            final(self).jump_stack() == old(self).jump_stack().push(
                pushed_info(
                    statement_info(
                        old(self).current_open_environments_count,
                        None,
                        u32::MAX,
                        set_flag(0, JumpControlInfoFlags::LOOP, true),
                    ),
                    use_expr,
                    old(self).jump_stack(),
                ),
            ),
            final(self).bytecode == old(self).bytecode,
            final(self).current_open_environments_count == old(self).current_open_environments_count,
            final(self).compile_environments_count == old(self).compile_environments_count,
    {
        let new_info = JumpControlInfo::new(self.current_open_environments_count).with_loop_flag(
            true,
        );
        self.push_contol_info(new_info, use_expr);
    }

    /// The innermost information, to change in place.
    pub fn current_jump_control_mut(&mut self) -> (r: Option<&mut JumpControlInfo>)
        ensures
            old(self).jump_info.len() == 0 ==> r.is_none() && final(self).jump_info@
                == old(self).jump_info@,
            old(self).jump_info.len() != 0 ==> r.is_some() && *r.unwrap()
                == old(self).jump_info@.last() && final(self).jump_info@ == old(
                self,
            ).jump_info@.update(old(self).jump_info.len() - 1, *final(r.unwrap())),
            final(self).bytecode == old(self).bytecode,
            final(self).current_open_environments_count == old(self).current_open_environments_count,
            final(self).compile_environments_count == old(self).compile_environments_count,
    {
        self.jump_info.last_mut()
    }

    /// Sets the start address of the innermost information.
    pub fn set_jump_control_start_address(&mut self, start_address: u32)
        requires
            old(self).jump_info.len() > 0,
        ensures
            final(self).jump_stack() == old(self).jump_stack().update(
                old(self).jump_info.len() - 1,
                JumpControlInfoView { start_address, ..old(self).jump_stack().last() },
            ),
            final(self).bytecode == old(self).bytecode,
            final(self).current_open_environments_count == old(self).current_open_environments_count,
            final(self).compile_environments_count == old(self).compile_environments_count,
    {
        let last = self.jump_info.len() - 1;
        let mut info = JumpControlInfo::new(0);
        self.jump_info.set_and_swap(last, &mut info);
        info.set_start_address(start_address);
        self.jump_info.set(last, info);
        assert(self.jump_stack() =~= old(self).jump_stack().update(
            old(self).jump_info.len() - 1,
            JumpControlInfoView { start_address, ..old(self).jump_stack().last() },
        ));
    }

    /// Pushes `info` onto the stack, with `USE_EXPR` set to `use_expr` or
    /// inherited from the innermost information.
    pub fn push_contol_info(&mut self, info: JumpControlInfo, use_expr: bool)
        ensures
            final(self).jump_stack() == old(self).jump_stack().push(
                pushed_info(info@, use_expr, old(self).jump_stack()),
            ),
            final(self).jump_stack().last().use_expr() == (use_expr || (old(self).jump_info.len()
                > 0 && old(self).jump_stack().last().use_expr())),
            final(self).bytecode == old(self).bytecode,
            final(self).current_open_environments_count == old(self).current_open_environments_count,
            final(self).compile_environments_count == old(self).compile_environments_count,
    {
        let ghost given = info@;
        let mut info = info;
        info.flags.set(JumpControlInfoFlags::USE_EXPR, use_expr);
        let len = self.jump_info.len();
        if len > 0 {
            let inherited = self.jump_info[len - 1].flags.intersection(
                JumpControlInfoFlags { bits: JumpControlInfoFlags::USE_EXPR },
            );
            info.flags.insert(inherited);
        }
        self.jump_info.push(info);
        proof {
            lemma_flags_single_bits();
            lemma_pushed_flags(given.flags, use_expr, old(self).jump_stack(), JumpControlInfoFlags::LOOP);
            assert(info@ =~= pushed_info(given, use_expr, old(self).jump_stack()));
            assert(self.jump_stack() =~= old(self).jump_stack().push(
                pushed_info(given, use_expr, old(self).jump_stack()),
            ));
        }
    }

    /// Whether the innermost information has the `USE_EXPR` flag.
    pub fn jump_control_info_has_use_expr(&self) -> (r: bool)
        ensures
            r == (self.jump_info.len() > 0 && self.jump_stack().last().use_expr()),
    {
        let len = self.jump_info.len();
        if len > 0 {
            return self.jump_info[len - 1].use_expr();
        }
        false
    }
}

impl ByteCompiler {
    /// Pushes a labelled statement's information onto the stack.
    pub fn push_labelled_control_info(&mut self, label: Sym, start_address: u32, use_expr: bool)
        ensures
            final(self).jump_stack() == old(self).jump_stack().push(
                pushed_info(
                    statement_info(
                        old(self).current_open_environments_count,
                        Some(label),
                        start_address,
                        set_flag(0, JumpControlInfoFlags::LABELLED, true),
                    ),
                    use_expr,
                    old(self).jump_stack(),
                ),
            ),
            final(self).bytecode == old(self).bytecode,
            final(self).current_open_environments_count == old(self).current_open_environments_count,
            final(self).compile_environments_count == old(self).compile_environments_count,
    {
        let new_info = JumpControlInfo::new(self.current_open_environments_count).with_labelled_block_flag(true).with_label(Some(label)).with_start_address(start_address);
        self.push_contol_info(new_info, use_expr);
    }

    /// Pushes a `while`, `for` or `do`-`while` statement's information onto the stack.
    pub fn push_loop_control_info(&mut self, label: Option<Sym>, start_address: u32, use_expr: bool)
        ensures
            final(self).jump_stack() == old(self).jump_stack().push(
                pushed_info(
                    statement_info(
                        old(self).current_open_environments_count,
                        label,
                        start_address,
                        set_flag(0, JumpControlInfoFlags::LOOP, true),
                    ),
                    use_expr,
                    old(self).jump_stack(),
                ),
            ),
            final(self).bytecode == old(self).bytecode,
            final(self).current_open_environments_count == old(self).current_open_environments_count,
            final(self).compile_environments_count == old(self).compile_environments_count,
    {
        let new_info = JumpControlInfo::new(self.current_open_environments_count).with_loop_flag(true).with_label(label).with_start_address(start_address);
        self.push_contol_info(new_info, use_expr);
    }

    /// Pushes a `for`-`in` or `for`-`of` statement's information onto the stack.
    pub fn push_loop_control_info_for_of_in_loop(&mut self, label: Option<Sym>, start_address: u32, use_expr: bool)
        ensures
            final(self).jump_stack() == old(self).jump_stack().push(
                pushed_info(
                    statement_info(
                        old(self).current_open_environments_count,
                        label,
                        start_address,
                        set_flag(set_flag(0, JumpControlInfoFlags::LOOP, true), JumpControlInfoFlags::ITERATOR_LOOP, true),
                    ),
                    use_expr,
                    old(self).jump_stack(),
                ),
            ),
            final(self).bytecode == old(self).bytecode,
            final(self).current_open_environments_count == old(self).current_open_environments_count,
            final(self).compile_environments_count == old(self).compile_environments_count,
    {
        let new_info = JumpControlInfo::new(self.current_open_environments_count).with_loop_flag(true).with_label(label).with_start_address(start_address).with_iterator_loop(true);
        self.push_contol_info(new_info, use_expr);
    }

    /// Pushes a `for await`-`of` statement's information onto the stack.
    pub fn push_loop_control_info_for_await_of_loop(&mut self, label: Option<Sym>, start_address: u32, use_expr: bool)
        ensures
            final(self).jump_stack() == old(self).jump_stack().push(
                pushed_info(
                    statement_info(
                        old(self).current_open_environments_count,
                        label,
                        start_address,
                        set_flag(
                            set_flag(set_flag(0, JumpControlInfoFlags::LOOP, true), JumpControlInfoFlags::ITERATOR_LOOP, true),
                            JumpControlInfoFlags::FOR_AWAIT_OF_LOOP,
                            true,
                        ),
                    ),
                    use_expr,
                    old(self).jump_stack(),
                ),
            ),
            final(self).bytecode == old(self).bytecode,
            final(self).current_open_environments_count == old(self).current_open_environments_count,
            final(self).compile_environments_count == old(self).compile_environments_count,
    {
        let new_info = JumpControlInfo::new(self.current_open_environments_count).with_loop_flag(true).with_label(label).with_start_address(start_address).with_iterator_loop(true).with_for_await_of_loop(true);
        self.push_contol_info(new_info, use_expr);
    }

    /// Pushes a `switch` statement's information onto the stack.
    pub fn push_switch_control_info(&mut self, label: Option<Sym>, start_address: u32, use_expr: bool)
        ensures
            final(self).jump_stack() == old(self).jump_stack().push(
                pushed_info(
                    statement_info(
                        old(self).current_open_environments_count,
                        label,
                        start_address,
                        set_flag(0, JumpControlInfoFlags::SWITCH, true),
                    ),
                    use_expr,
                    old(self).jump_stack(),
                ),
            ),
            final(self).bytecode == old(self).bytecode,
            final(self).current_open_environments_count == old(self).current_open_environments_count,
            final(self).compile_environments_count == old(self).compile_environments_count,
    {
        let new_info = JumpControlInfo::new(self.current_open_environments_count).with_switch_flag(true).with_label(label).with_start_address(start_address);
        self.push_contol_info(new_info, use_expr);
    }

    /// Pushes a `try` statement's information onto the stack.
    pub fn push_try_control_info(&mut self, has_finally: bool, start_address: u32, use_expr: bool)
        ensures
            final(self).jump_stack() == old(self).jump_stack().push(
                pushed_info(
                    statement_info(
                        old(self).current_open_environments_count,
                        None,
                        start_address,
                        set_flag(set_flag(0, JumpControlInfoFlags::TRY_BLOCK, true), JumpControlInfoFlags::HAS_FINALLY, has_finally),
                    ),
                    use_expr,
                    old(self).jump_stack(),
                ),
            ),
            final(self).bytecode == old(self).bytecode,
            final(self).current_open_environments_count == old(self).current_open_environments_count,
            final(self).compile_environments_count == old(self).compile_environments_count,
    {
        let new_info = JumpControlInfo::new(self.current_open_environments_count).with_try_block_flag(true).with_start_address(start_address).with_has_finally(has_finally);
        self.push_contol_info(new_info, use_expr);
    }

    /// Pops a loop's information and patches its jumps: each `break` to the
    /// next instruction, each `continue` to the loop's start.
    pub fn pop_loop_control_info(&mut self)
        requires
            old(self).jump_info.len() > 0,
            old(self).jump_stack().last().is_loop(),
            jumps_within(old(self).jump_stack().last().jumps, old(self).bytecode.len() as int),
            old(self).bytecode.len() <= u32::MAX,
        ensures
            final(self).jump_stack() == old(self).jump_stack().drop_last(),
            final(self).bytecode@ == patched(
                old(self).bytecode@,
                jump_patches(
                    old(self).jump_stack().last().jumps,
                    old(self).bytecode.len() as u32,
                    old(self).jump_stack().last().start_address,
                ),
            ),
            final(self).current_open_environments_count == old(self).current_open_environments_count,
            final(self).compile_environments_count == old(self).compile_environments_count,
    {
        let info = self.jump_info.pop().unwrap();
        proof {
            assert(self.jump_stack() =~= old(self).jump_stack().drop_last());
        }
        let ghost code = self.bytecode@;
        let ghost len = self.bytecode.len();
        let start_address = info.start_address();
        let n = info.jumps.len();
        let mut i: usize = 0;
        while i < n
            invariant
                i <= n,
                n == info.jumps.len(),
                info@ == old(self).jump_stack().last(),
                start_address == info@.start_address,
                code == old(self).bytecode@,
                len == code.len(),
                len <= u32::MAX,
                jumps_within(info@.jumps, len as int),
                self.bytecode.len() == len,
                self.bytecode@ == patched(
                    code,
                    jump_patches(info@.jumps.take(i as int), len as u32, start_address),
                ),
                self.jump_stack() == old(self).jump_stack().drop_last(),
                self.current_open_environments_count == old(self).current_open_environments_count,
                self.compile_environments_count == old(self).compile_environments_count,
            decreases n - i,
        {
            let record = info.jumps[i];
            match record.kind {
                JumpRecordKind::Break => self.patch_jump(record.address),
                JumpRecordKind::Continue => self.patch_jump_with_target(record.address, start_address),
            }
            assert(jump_patches(info@.jumps.take(i + 1), len as u32, start_address).drop_last()
                =~= jump_patches(info@.jumps.take(i as int), len as u32, start_address));
            i = i + 1;
        }
        assert(info@.jumps.take(n as int) =~= info@.jumps);
    }

    /// Pops a labelled statement's information: the jumps that carry its
    /// label are patched (each `break` to the next instruction, each
    /// `continue` to the statement's start), the others move to the
    /// enclosing statement.
    pub fn pop_labelled_control_info(&mut self)
        requires
            old(self).jump_info.len() > 0,
            old(self).jump_stack().last().is_labelled(),
            old(self).jump_stack().last().label.is_some(),
            jumps_within(
                jumps_with_label(
                    old(self).jump_stack().last().jumps,
                    old(self).jump_stack().last().label,
                ),
                old(self).bytecode.len() as int,
            ),
            old(self).bytecode.len() <= u32::MAX,
            jumps_without_label(
                old(self).jump_stack().last().jumps,
                old(self).jump_stack().last().label,
            ).len() > 0 ==> old(self).jump_info.len() >= 2,
        ensures
            final(self).jump_stack() == append_to_last(
                old(self).jump_stack().drop_last(),
                jumps_without_label(
                    old(self).jump_stack().last().jumps,
                    old(self).jump_stack().last().label,
                ),
            ),
            final(self).bytecode@ == patched(
                old(self).bytecode@,
                jump_patches(
                    jumps_with_label(
                        old(self).jump_stack().last().jumps,
                        old(self).jump_stack().last().label,
                    ),
                    old(self).bytecode.len() as u32,
                    old(self).jump_stack().last().start_address,
                ),
            ),
            final(self).current_open_environments_count == old(self).current_open_environments_count,
            final(self).compile_environments_count == old(self).compile_environments_count,
    {
        let info = self.jump_info.pop().unwrap();
        let ghost stack0 = self.jump_stack();
        proof {
            assert(stack0 =~= old(self).jump_stack().drop_last());
            assert(append_to_last(stack0, Seq::empty()) =~= stack0);
        }
        let ghost code = self.bytecode@;
        let ghost len = self.bytecode.len();
        let ghost jumps = info@.jumps;
        let label = info.label();
        let n = info.jumps.len();
        let mut i: usize = 0;
        while i < n
            invariant
                i <= n,
                n == info.jumps.len(),
                info@ == old(self).jump_stack().last(),
                jumps == info@.jumps,
                label == info@.label,
                code == old(self).bytecode@,
                len == code.len(),
                len <= u32::MAX,
                jumps_within(jumps_with_label(jumps, label), len as int),
                jumps_without_label(jumps, label).len() > 0 ==> stack0.len() >= 1,
                self.bytecode.len() == len,
                self.bytecode@ == patched(
                    code,
                    jump_patches(
                        jumps_with_label(jumps.take(i as int), label),
                        len as u32,
                        info@.start_address,
                    ),
                ),
                self.jump_stack() == append_to_last(
                    stack0,
                    jumps_without_label(jumps.take(i as int), label),
                ),
                self.jump_info.len() == stack0.len(),
                self.current_open_environments_count == old(self).current_open_environments_count,
                self.compile_environments_count == old(self).compile_environments_count,
            decreases n - i,
        {
            let record = info.jumps[i];
            assert(jumps.take(i + 1).drop_last() =~= jumps.take(i as int));
            assert(jumps.take(i + 1).last() == record);
            if same_label(label, record.label) {
                proof {
                    lemma_select_within(jumps, |r: JumpRecord| r.label == label, i as int, len as int);
                }
                match record.kind {
                    JumpRecordKind::Break => self.patch_jump(record.address),
                    JumpRecordKind::Continue => self.patch_jump_with_target(
                        record.address,
                        info.start_address,
                    ),
                }
                assert(jump_patches(jumps_with_label(jumps.take(i + 1), label), len as u32, info@.start_address).drop_last()
                    =~= jump_patches(jumps_with_label(jumps.take(i as int), label), len as u32, info@.start_address));
            } else {
                proof {
                    lemma_select_nonempty(jumps, |r: JumpRecord| r.label != label, i as int);
                }
                self.push_jump_record_to_last(record);
                proof {
                    lemma_append_to_last_push(stack0, jumps_without_label(jumps.take(i as int), label), record);
                }
            }
            i = i + 1;
        }
        assert(jumps.take(n as int) =~= jumps);
    }

    /// Pops a `switch` statement's information: each `break` is patched to
    /// the next instruction, each `continue` moves to the enclosing
    /// statement.
    pub fn pop_switch_control_info(&mut self)
        requires
            old(self).jump_info.len() > 0,
            old(self).jump_stack().last().is_switch(),
            jumps_within(
                jumps_of_kind(old(self).jump_stack().last().jumps, JumpRecordKind::Break),
                old(self).bytecode.len() as int,
            ),
            old(self).bytecode.len() <= u32::MAX,
            jumps_of_kind(old(self).jump_stack().last().jumps, JumpRecordKind::Continue).len() > 0
                ==> old(self).jump_info.len() >= 2,
        ensures
            final(self).jump_stack() == append_to_last(
                old(self).jump_stack().drop_last(),
                jumps_of_kind(old(self).jump_stack().last().jumps, JumpRecordKind::Continue),
            ),
            final(self).bytecode@ == patched(
                old(self).bytecode@,
                jump_patches(
                    jumps_of_kind(old(self).jump_stack().last().jumps, JumpRecordKind::Break),
                    old(self).bytecode.len() as u32,
                    old(self).jump_stack().last().start_address,
                ),
            ),
            final(self).current_open_environments_count == old(self).current_open_environments_count,
            final(self).compile_environments_count == old(self).compile_environments_count,
    {
        let info = self.jump_info.pop().unwrap();
        let ghost stack0 = self.jump_stack();
        proof {
            assert(stack0 =~= old(self).jump_stack().drop_last());
            assert(append_to_last(stack0, Seq::empty()) =~= stack0);
        }
        let ghost code = self.bytecode@;
        let ghost len = self.bytecode.len();
        let ghost jumps = info@.jumps;
        let n = info.jumps.len();
        let mut i: usize = 0;
        while i < n
            invariant
                i <= n,
                n == info.jumps.len(),
                info@ == old(self).jump_stack().last(),
                jumps == info@.jumps,
                code == old(self).bytecode@,
                len == code.len(),
                len <= u32::MAX,
                jumps_within(jumps_of_kind(jumps, JumpRecordKind::Break), len as int),
                jumps_of_kind(jumps, JumpRecordKind::Continue).len() > 0 ==> stack0.len() >= 1,
                self.bytecode.len() == len,
                self.bytecode@ == patched(
                    code,
                    jump_patches(
                        jumps_of_kind(jumps.take(i as int), JumpRecordKind::Break),
                        len as u32,
                        info@.start_address,
                    ),
                ),
                self.jump_stack() == append_to_last(
                    stack0,
                    jumps_of_kind(jumps.take(i as int), JumpRecordKind::Continue),
                ),
                self.jump_info.len() == stack0.len(),
                self.current_open_environments_count == old(self).current_open_environments_count,
                self.compile_environments_count == old(self).compile_environments_count,
            decreases n - i,
        {
            let record = info.jumps[i];
            assert(jumps.take(i + 1).drop_last() =~= jumps.take(i as int));
            assert(jumps.take(i + 1).last() == record);
            match record.kind {
                JumpRecordKind::Break => {
                    proof {
                        lemma_select_within(jumps, |r: JumpRecord| r.kind == JumpRecordKind::Break, i as int, len as int);
                    }
                    self.patch_jump(record.address);
                    assert(jump_patches(jumps_of_kind(jumps.take(i + 1), JumpRecordKind::Break), len as u32, info@.start_address).drop_last()
                        =~= jump_patches(jumps_of_kind(jumps.take(i as int), JumpRecordKind::Break), len as u32, info@.start_address));
                },
                JumpRecordKind::Continue => {
                    proof {
                        lemma_select_nonempty(jumps, |r: JumpRecord| r.kind == JumpRecordKind::Continue, i as int);
                    }
                    self.push_jump_record_to_last(record);
                    proof {
                        lemma_append_to_last_push(stack0, jumps_of_kind(jumps.take(i as int), JumpRecordKind::Continue), record);
                    }
                },
            }
            i = i + 1;
        }
        assert(jumps.take(n as int) =~= jumps);
    }

    /// Gives the jumps of `info` to the enclosing statement.
    fn append_jumps_to_last(&mut self, info: JumpControlInfo)
        requires
            old(self).jump_info.len() > 0,
        ensures
            final(self).jump_stack() == append_to_last(old(self).jump_stack(), info@.jumps),
            final(self).jump_info.len() == old(self).jump_info.len(),
            final(self).bytecode == old(self).bytecode,
            final(self).current_open_environments_count == old(self).current_open_environments_count,
            final(self).compile_environments_count == old(self).compile_environments_count,
    {
        let n = info.jumps.len();
        let mut i: usize = 0;
        proof {
            assert(append_to_last(old(self).jump_stack(), info@.jumps.take(0)) =~= old(self).jump_stack());
        }
        while i < n
            invariant
                i <= n,
                n == info.jumps.len(),
                old(self).jump_info.len() > 0,
                self.jump_stack() == append_to_last(old(self).jump_stack(), info@.jumps.take(i as int)),
                self.jump_info.len() == old(self).jump_info.len(),
                self.bytecode == old(self).bytecode,
                self.current_open_environments_count == old(self).current_open_environments_count,
                self.compile_environments_count == old(self).compile_environments_count,
            decreases n - i,
        {
            self.push_jump_record_to_last(info.jumps[i]);
            assert(info@.jumps.take(i + 1) =~= info@.jumps.take(i as int).push(info@.jumps[i as int]));
            proof {
                lemma_append_to_last_push(old(self).jump_stack(), info@.jumps.take(i as int), info@.jumps[i as int]);
            }
            i = i + 1;
        }
        assert(info@.jumps.take(n as int) =~= info@.jumps);
    }
}

/// The instructions that leave a `finally` block for one recorded jump: they
/// close the `pops` environments opened since the enclosing statement began,
/// tell an enclosing `finally` which of its jumps to take (`marker`), and
/// jump.
pub open spec fn finally_exit_code(pops: nat, marker: Option<u32>) -> Seq<u32> {
    Seq::new(pops, |i: int| Opcode::PopEnvironment.code()) + match marker {
        Some(m) => seq![Opcode::PushInt32.code(), m, Opcode::PushFalse.code()],
        None => Seq::<u32>::empty(),
    } + seq![Opcode::Jump.code(), DUMMY_ADDRESS]
}

/// The exits of the first `count` jumps out of a `finally` block. Exits are
/// only emitted when environments must be closed; when the enclosing
/// statement is a try statement with a `finally` (`marked`), exit `i` marks
/// the jump as its `first_index + i + 1`-th.
pub open spec fn finally_exits(pops: nat, marked: bool, first_index: nat, count: nat) -> Seq<u32>
    decreases count,
{
    if pops == 0 || count == 0 {
        Seq::empty()
    } else {
        finally_exits(pops, marked, first_index, (count - 1) as nat) + finally_exit_code(
            pops,
            if marked {
                Some((first_index + count) as u32)
            } else {
                None
            },
        )
    }
}

/// More exits take more code.
pub proof fn lemma_finally_exits_grow(pops: nat, marked: bool, first_index: nat, i: nat, n: nat)
    requires
        i <= n,
    ensures
        finally_exits(pops, marked, first_index, i).len() <= finally_exits(
            pops,
            marked,
            first_index,
            n,
        ).len(),
    decreases n - i,
{
    if i < n {
        lemma_finally_exits_grow(pops, marked, first_index, i, (n - 1) as nat);
    }
}

/// The entries of the jump table at the start of a `finally` block: entry `i`
/// goes to the exit of jump `i`, or is left for the enclosing statement to
/// patch when there are no exits.
pub open spec fn finally_table(pops: nat, marked: bool, first_index: nat, base: int, n: nat) -> Seq<
    u32,
> {
    Seq::new(
        n,
        |i: int|
            if pops == 0 {
                DUMMY_ADDRESS
            } else {
                (base + finally_exits(pops, marked, first_index, i as nat).len()) as u32
            },
    )
}

/// The code after popping a try statement with a `finally` whose jumps are
/// `jumps`: each jump is patched to `try_end`, then follow the jump table
/// (its instruction, its default target, its size and its entries) and the
/// exits of the jumps.
pub open spec fn try_finally_code(
    code: Seq<u32>,
    jumps: Seq<JumpRecord>,
    try_end: u32,
    pops: nat,
    marked: bool,
    first_index: nat,
) -> Seq<u32> {
    let n = jumps.len();
    let base = code.len() + 3 + n;
    let exits = finally_exits(pops, marked, first_index, n);
    patched(code, jump_patches(jumps, try_end, try_end)) + seq![
        Opcode::JumpTable.code(),
        (base + exits.len()) as u32,
        n as u32,
    ] + finally_table(pops, marked, first_index, base as int, n) + exits
}

/// The jumps the enclosing statement takes over from a try statement with a
/// `finally`: each keeps its kind, label and final target, and now starts at
/// its exit, or at its jump table entry when there are no exits.
pub open spec fn finally_exit_records(
    jumps: Seq<JumpRecord>,
    pops: nat,
    marked: bool,
    first_index: nat,
    table: int,
) -> Seq<JumpRecord> {
    Seq::new(
        jumps.len(),
        |i: int|
            JumpRecord {
                kind: jumps[i].kind,
                label: jumps[i].label,
                address: Label {
                    index: if pops == 0 {
                        (table + i) as u32
                    } else {
                        (table + jumps.len() + finally_exits(
                            pops,
                            marked,
                            first_index,
                            (i + 1) as nat,
                        ).len() - 1) as u32
                    },
                },
                target_index: jumps[i].target_index,
            },
    )
}

/// How many environments the exits of a popped statement close: those opened
/// since the enclosing statement began.
pub open spec fn exit_pops(stack: Seq<JumpControlInfoView>) -> nat {
    if stack.len() >= 2 {
        (stack.last().open_environments - stack[stack.len() - 2].open_environments) as nat
    } else {
        0
    }
}

/// Whether the statement enclosing the innermost one is a try statement with a
/// `finally`.
pub open spec fn exit_marked(stack: Seq<JumpControlInfoView>) -> bool {
    stack.len() >= 2 && stack[stack.len() - 2].is_try_block() && stack[stack.len()
        - 2].has_finally()
}

/// How many jumps the statement enclosing the innermost one has recorded.
pub open spec fn exit_first_index(stack: Seq<JumpControlInfoView>) -> nat {
    if stack.len() >= 2 {
        stack[stack.len() - 2].jumps.len()
    } else {
        0
    }
}

impl ByteCompiler {
    /// Pops a try statement's information. With a `finally`, every jump is
    /// sent to `try_end`, where a jump table sends it on, through the exit
    /// that closes the environments it leaves, to the enclosing statement,
    /// which records it. Without a `finally`, the enclosing statement takes
    /// the jumps over as they are.
    pub fn pop_try_control_info(&mut self, try_end: u32)
        requires
            old(self).jump_info.len() > 0,
            old(self).jump_stack().last().is_try_block(),
            !old(self).jump_stack().last().has_finally() && old(self).jump_stack().last().jumps.len()
                > 0 ==> old(self).jump_info.len() >= 2,
            old(self).jump_stack().last().has_finally() ==> {
                let stack = old(self).jump_stack();
                &&& jumps_within(stack.last().jumps, old(self).bytecode.len() as int)
                &&& stack.len() >= 2 && stack.last().jumps.len() > 0
                    ==> stack.last().open_environments >= stack[stack.len() - 2].open_environments
                &&& stack.last().jumps.len() > 0 && exit_marked(stack) && exit_pops(stack) != 0
                    ==> exit_first_index(stack) + stack.last().jumps.len() <= i32::MAX
                &&& old(self).bytecode.len() + 3 + stack.last().jumps.len() + finally_exits(
                    exit_pops(stack),
                    exit_marked(stack),
                    exit_first_index(stack),
                    stack.last().jumps.len(),
                ).len() <= u32::MAX
            },
        ensures
            old(self).jump_stack().last().has_finally() ==> {
                let stack = old(self).jump_stack();
                &&& final(self).bytecode@ == try_finally_code(
                    old(self).bytecode@,
                    stack.last().jumps,
                    try_end,
                    exit_pops(stack),
                    exit_marked(stack),
                    exit_first_index(stack),
                )
                &&& final(self).jump_stack() == append_to_last(
                    stack.drop_last(),
                    finally_exit_records(
                        stack.last().jumps,
                        exit_pops(stack),
                        exit_marked(stack),
                        exit_first_index(stack),
                        old(self).bytecode.len() + 3,
                    ),
                )
            },
            !old(self).jump_stack().last().has_finally() ==> {
                &&& final(self).bytecode == old(self).bytecode
                &&& final(self).jump_stack() == append_to_last(
                    old(self).jump_stack().drop_last(),
                    old(self).jump_stack().last().jumps,
                )
            },
            final(self).current_open_environments_count == old(self).current_open_environments_count,
            final(self).compile_environments_count == old(self).compile_environments_count,
    {
        let ghost stack = old(self).jump_stack();
        let info = self.jump_info.pop().unwrap();
        let ghost below = self.jump_stack();
        proof {
            assert(below =~= stack.drop_last());
            assert(append_to_last(below, Seq::empty()) =~= below);
        }
        if info.has_finally() {
            let ghost code0 = self.bytecode@;
            let ghost len0 = self.bytecode.len();
            let ghost jumps = info@.jumps;
            let n = info.jumps.len();
            let mut i: usize = 0;
            while i < n
                invariant
                    i <= n,
                    n == info.jumps.len(),
                    info@ == stack.last(),
                    jumps == info@.jumps,
                    code0 == old(self).bytecode@,
                    len0 == code0.len(),
                    jumps_within(jumps, len0 as int),
                    self.bytecode.len() == len0,
                    self.bytecode@ == patched(code0, jump_patches(jumps.take(i as int), try_end, try_end)),
                    self.jump_stack() == below,
                    self.jump_info.len() == below.len(),
                    self.current_open_environments_count == old(self).current_open_environments_count,
                    self.compile_environments_count == old(self).compile_environments_count,
                decreases n - i,
            {
                self.patch_jump_with_target(info.jumps[i].address, try_end);
                assert(jump_patches(jumps.take(i + 1), try_end, try_end).drop_last()
                    =~= jump_patches(jumps.take(i as int), try_end, try_end));
                i = i + 1;
            }
            assert(jumps.take(n as int) =~= jumps);
            let ghost pops = exit_pops(stack);
            let ghost marked = exit_marked(stack);
            let ghost first_index = exit_first_index(stack);
            let ghost code1 = self.bytecode@;
            let ghost base = len0 + 3 + n;
            proof {
                lemma_finally_exits_grow(pops, marked, first_index, 0, n as nat);
            }
            let (labels, default) = self.jump_table(n as u32);
            let ghost records = finally_exit_records(jumps, pops, marked, first_index, len0 + 3);
            proof {
                assert(Seq::new(n as nat, |j: int| DUMMY_ADDRESS) =~= Seq::new(
                    n as nat,
                    |j: int|
                        if j >= 0 || pops == 0 {
                            DUMMY_ADDRESS
                        } else {
                            (base + finally_exits(pops, marked, first_index, j as nat).len()) as u32
                        },
                ));
                assert(append_to_last(below, records.take(0)) =~= below);
            }
            let mut i: usize = 0;
            while i < labels.len()
                invariant
                    i <= n,
                    labels.len() == n,
                    forall|k: int| 0 <= k < n ==> #[trigger] labels@[k].index == len0 + 3 + k,
                    default.index == len0 + 1,
                    info@ == stack.last(),
                    jumps == info@.jumps,
                    n == jumps.len(),
                    stack.len() == below.len() + 1,
                    below == stack.drop_last(),
                    pops == exit_pops(stack),
                    marked == exit_marked(stack),
                    first_index == exit_first_index(stack),
                    n > 0 && stack.len() >= 2 ==> stack.last().open_environments >= stack[stack.len()
                        - 2].open_environments,
                    n > 0 && marked && pops != 0 ==> first_index + n <= i32::MAX,
                    len0 + 3 + n + finally_exits(pops, marked, first_index, n as nat).len() <= u32::MAX,
                    base == len0 + 3 + n,
                    code1.len() == len0,
                    records == finally_exit_records(jumps, pops, marked, first_index, len0 + 3),
                    self.jump_info.len() == below.len(),
                    self.jump_stack() == append_to_last(below, records.take(i as int)),
                    self.bytecode@ == code1 + seq![Opcode::JumpTable.code(), DUMMY_ADDRESS, n as u32]
                        + Seq::new(
                        n as nat,
                        |j: int|
                            if j >= i || pops == 0 {
                                DUMMY_ADDRESS
                            } else {
                                (base + finally_exits(pops, marked, first_index, j as nat).len()) as u32
                            },
                    ) + finally_exits(pops, marked, first_index, i as nat),
                    self.current_open_environments_count == old(self).current_open_environments_count,
                    self.compile_environments_count == old(self).compile_environments_count,
                decreases n - i,
            {
                let len = self.jump_info.len();
                if len > 0 {
                    let jump_record = info.jumps[i];
                    let ghost parent = self.jump_stack()[len - 1];
                    proof {
                        assert(parent == below.last().with_jumps_appended(records.take(i as int)));
                        assert(below.last() == stack[stack.len() - 2]);
                    }
                    let parent_count = self.jump_info[len - 1].current_open_environments_count;
                    let environments_to_pop = info.current_open_environments_count - parent_count;
                    assert(environments_to_pop == pops);
                    let next = if environments_to_pop == 0 {
                        labels[i]
                    } else {
                        let next_index = self.jump_info[len - 1].jumps.len();
                        let is_try_block_and_has_finally = self.jump_info[len - 1].is_try_block()
                            && self.jump_info[len - 1].has_finally();
                        assert(next_index == first_index + i);
                        assert(is_try_block_and_has_finally == marked);
                        let ghost before_exits = finally_exits(pops, marked, first_index, i as nat);
                        proof {
                            lemma_finally_exits_grow(pops, marked, first_index, (i + 1) as nat, n as nat);
                        }
                        self.patch_jump(labels[i]);
                        let ghost mid = self.bytecode@;
                        let ghost stack_now = self.jump_stack();
                        let mut k: u32 = 0;
                        while k < environments_to_pop
                            invariant
                                k <= environments_to_pop,
                                self.bytecode@ == mid + Seq::new(k as nat, |j: int| Opcode::PopEnvironment.code()),
                                self.jump_stack() == stack_now,
                                self.jump_info.len() == len,
                                self.current_open_environments_count == old(self).current_open_environments_count,
                                self.compile_environments_count == old(self).compile_environments_count,
                            decreases environments_to_pop - k,
                        {
                            self.emit_opcode(Opcode::PopEnvironment);
                            assert(self.bytecode@ =~= mid + Seq::new((k + 1) as nat, |j: int| Opcode::PopEnvironment.code()));
                            k = k + 1;
                        }
                        if is_try_block_and_has_finally {
                            self.emit_push_integer(next_index as i32 + 1);
                            self.emit_opcode(Opcode::PushFalse);
                        }
                        let label = self.jump();
                        assert(finally_exits(pops, marked, first_index, (i + 1) as nat) =~= before_exits
                            + finally_exit_code(
                            pops,
                            if marked {
                                Some((first_index + i + 1) as u32)
                            } else {
                                None
                            },
                        ));
                        assert(label.index == base + finally_exits(pops, marked, first_index, (i + 1) as nat).len() - 1);
                        label
                    };
                    proof {
                        lemma_finally_exits_grow(pops, marked, first_index, (i + 1) as nat, n as nat);
                        assert(records[i as int].address.index == next.index);
                    }
                    match jump_record.kind {
                        JumpRecordKind::Break => self.push_jump_record_to_last(
                            JumpRecord::new(JumpRecordKind::Break, jump_record.label(), next, jump_record.target_index()),
                        ),
                        JumpRecordKind::Continue => self.push_jump_record_to_last(
                            JumpRecord::new(JumpRecordKind::Continue, jump_record.label(), next, jump_record.target_index()),
                        ),
                    }
                    proof {
                        lemma_append_to_last_push(below, records.take(i as int), records[i as int]);
                        assert(records.take(i + 1) =~= records.take(i as int).push(records[i as int]));
                    }
                } else {
                    proof {
                        assert(append_to_last(below, records.take(i + 1)) =~= below);
                        assert(append_to_last(below, records.take(i as int)) =~= below);
                    }
                }
                i = i + 1;
            }
            self.patch_jump(default);
            proof {
                assert(records.take(n as int) =~= records);
                assert(code1 == patched(code0, jump_patches(jumps, try_end, try_end)));
                assert(self.bytecode@ =~= try_finally_code(
                    code0,
                    jumps,
                    try_end,
                    pops,
                    marked,
                    first_index,
                ));
            }
        } else if info.jumps.len() > 0 {
            self.append_jumps_to_last(info);
        }
    }
}

/// How many environments the statement at `index` opened: up to the start of
/// the next statement on the stack, or up to now for the innermost one.
pub open spec fn open_environments_of(
    stack: Seq<JumpControlInfoView>,
    current: u32,
    index: int,
) -> int {
    if index + 1 < stack.len() {
        stack[index + 1].open_environments - stack[index].open_environments
    } else {
        current - stack[index].open_environments
    }
}

impl ByteCompiler {
    /// How many environments the statement at `index` opened.
    pub fn jump_info_open_environment_count(&self, index: usize) -> (r: u32)
        requires
            index < self.jump_info.len(),
            open_environments_of(
                self.jump_stack(),
                self.current_open_environments_count,
                index as int,
            ) >= 0,
        ensures
            r == open_environments_of(
                self.jump_stack(),
                self.current_open_environments_count,
                index as int,
            ),
    {
        let current = &self.jump_info[index];
        if index + 1 < self.jump_info.len() {
            let next = &self.jump_info[index + 1];
            return next.current_open_environments_count - current.current_open_environments_count;
        }
        self.current_open_environments_count - current.current_open_environments_count
    }
}

/// No flag is set in empty flags.
pub proof fn lemma_no_flag_set(flag: u16)
    requires
        single_bit(flag),
    ensures
        !has_flag(0, flag),
{
    assert(flag != 0 ==> 0u16 & flag != flag) by (bit_vector);
}

/// Whether every statement on `stack` above one that uses its expression
/// value uses it too.
pub open spec fn use_expr_nested(stack: Seq<JumpControlInfoView>) -> bool {
    forall|i: int, j: int| 0 <= i < j < stack.len() && #[trigger] stack[i].use_expr() ==> #[trigger] stack[j].use_expr()
}

/// A statement pushed inside one that uses its expression value uses it
/// too: pushing keeps `USE_EXPR` nested.
pub proof fn law_push_keeps_use_expr_nested(
    stack: Seq<JumpControlInfoView>,
    info: JumpControlInfoView,
    use_expr: bool,
)
    requires
        use_expr_nested(stack),
    ensures
        use_expr_nested(stack.push(pushed_info(info, use_expr, stack))),
{
    lemma_flags_single_bits();
    lemma_pushed_flags(info.flags, use_expr, stack, JumpControlInfoFlags::LOOP);
    let pushed = stack.push(pushed_info(info, use_expr, stack));
    assert forall|i: int, j: int|
        0 <= i < j < pushed.len() && #[trigger] pushed[i].use_expr() implies #[trigger] pushed[j].use_expr() by {
        if j == stack.len() {
            assert(pushed[i] == stack[i]);
            if i < stack.len() - 1 {
                assert(stack[i].use_expr() ==> stack[stack.len() - 1].use_expr());
            }
        } else {
            assert(pushed[i] == stack[i]);
            assert(pushed[j] == stack[j]);
        }
    }
}

/// Popping a statement, whatever jumps it hands to the enclosing one, keeps
/// `USE_EXPR` nested.
pub proof fn law_pop_keeps_use_expr_nested(stack: Seq<JumpControlInfoView>, extra: Seq<JumpRecord>)
    requires
        use_expr_nested(stack),
        stack.len() > 0,
    ensures
        use_expr_nested(append_to_last(stack.drop_last(), extra)),
{
    let below = stack.drop_last();
    let after = append_to_last(below, extra);
    assert forall|i: int, j: int|
        0 <= i < j < after.len() && #[trigger] after[i].use_expr() implies #[trigger] after[j].use_expr() by {
        assert(after[i].flags == stack[i].flags);
        assert(after[j].flags == stack[j].flags);
        assert(stack[i].use_expr());
        assert(stack[j].use_expr());
    }
}

/// A statement pushed with one kind flag reads as that kind and as no other.
pub proof fn law_pushed_statement_kind(
    stack: Seq<JumpControlInfoView>,
    flag: u16,
    other: u16,
    use_expr: bool,
)
    requires
        single_bit(flag),
        single_bit(other),
        flag != JumpControlInfoFlags::USE_EXPR,
        other != JumpControlInfoFlags::USE_EXPR,
    ensures
        has_flag(pushed_flags(set_flag(0, flag, true), use_expr, stack), other) == (other == flag),
{
    lemma_pushed_flags(set_flag(0, flag, true), use_expr, stack, other);
    lemma_set_flag(0, flag, other, true);
    lemma_no_flag_set(other);
}

/// Popping a statement right after pushing it, with no jump recorded in
/// between, gives back the stack as it was.
pub proof fn law_pop_undoes_push(
    stack: Seq<JumpControlInfoView>,
    info: JumpControlInfoView,
    use_expr: bool,
)
    requires
        info.jumps.len() == 0,
    ensures
        append_to_last(stack.push(pushed_info(info, use_expr, stack)).drop_last(), info.jumps)
            == stack,
        ({
            let pushed = stack.push(pushed_info(info, use_expr, stack));
            &&& jump_patches(pushed.last().jumps, 0, 0).len() == 0
            &&& append_to_last(pushed.drop_last(), select(pushed.last().jumps, |r: JumpRecord| r.label != info.label)) == stack
            &&& append_to_last(pushed.drop_last(), select(pushed.last().jumps, |r: JumpRecord| r.kind == JumpRecordKind::Continue)) == stack
        }),
{
    let pushed = stack.push(pushed_info(info, use_expr, stack));
    assert(pushed.drop_last() =~= stack);
    if stack.len() > 0 {
        assert(stack.last().jumps + info.jumps =~= stack.last().jumps);
        assert(append_to_last(stack, info.jumps) =~= stack);
    }
}

/// Every jump of a popped statement is either patched there or handed to the
/// enclosing statement: the jumps that satisfy a test and those that do not
/// together are all of them.
pub proof fn law_no_jump_lost(jumps: Seq<JumpRecord>, keep: spec_fn(JumpRecord) -> bool)
    ensures
        select(jumps, keep).len() + select(jumps, |r: JumpRecord| !keep(r)).len() == jumps.len(),
    decreases jumps.len(),
{
    if jumps.len() > 0 {
        law_no_jump_lost(jumps.drop_last(), keep);
    }
}

/// After patching, a jump whose operand no other jump shares goes to its
/// target: a `break` to the break target, a `continue` to the continue
/// target.
pub proof fn law_jump_reaches_its_target(
    code: Seq<u32>,
    jumps: Seq<JumpRecord>,
    break_target: u32,
    continue_target: u32,
    i: int,
)
    requires
        jumps_within(jumps, code.len() as int),
        0 <= i < jumps.len(),
        forall|j: int|
            0 <= j < jumps.len() && j != i ==> #[trigger] jumps[j].address.index != jumps[i].address.index,
    ensures
        patched(code, jump_patches(jumps, break_target, continue_target))[jumps[i].address.index as int]
            == if jumps[i].kind == JumpRecordKind::Break {
            break_target
        } else {
            continue_target
        },
{
    let patches = jump_patches(jumps, break_target, continue_target);
    let k = jumps[i].address.index as int;
    assert(crate::bytecompiler::patches_within(patches, code.len() as int));
    assert forall|l: int| 0 <= l < patches.len() && l != i implies #[trigger] patches[l].0 != k by {
        assert(patches[l].0 == jumps[l].address.index);
    }
    assert(patches[i].0 == k);
    assert(patches[i].1 == if jumps[i].kind == JumpRecordKind::Break {
        break_target
    } else {
        continue_target
    });
    crate::bytecompiler::lemma_patched_at(code, patches, k);
}

/// The environments the statements from `k` up opened.
pub open spec fn open_environments_from(stack: Seq<JumpControlInfoView>, current: u32, k: int) -> int
    decreases stack.len() - k,
{
    if k >= stack.len() {
        0
    } else {
        open_environments_of(stack, current, k) + open_environments_from(stack, current, k + 1)
    }
}

/// The environments the statements from `k` up opened add up to those open
/// now less those open when the statement at `k` began.
pub proof fn law_open_environments_add_up(stack: Seq<JumpControlInfoView>, current: u32, k: int)
    requires
        0 <= k < stack.len(),
    ensures
        open_environments_from(stack, current, k) == current - stack[k].open_environments,
    decreases stack.len() - k,
{
    if k + 1 < stack.len() {
        law_open_environments_add_up(stack, current, k + 1);
    } else {
        assert(open_environments_from(stack, current, k + 1) == 0);
    }
}

/// In a try statement with a `finally`, every jump whose operand no other
/// jump shares goes first to the `finally` block at `try_end`.
pub proof fn law_try_jumps_enter_finally(
    code: Seq<u32>,
    jumps: Seq<JumpRecord>,
    try_end: u32,
    pops: nat,
    marked: bool,
    first_index: nat,
    i: int,
)
    requires
        jumps_within(jumps, code.len() as int),
        0 <= i < jumps.len(),
        forall|j: int|
            0 <= j < jumps.len() && j != i ==> #[trigger] jumps[j].address.index != jumps[i].address.index,
    ensures
        try_finally_code(code, jumps, try_end, pops, marked, first_index)[jumps[i].address.index as int]
            == try_end,
{
    law_jump_reaches_its_target(code, jumps, try_end, try_end, i);
    let patches = jump_patches(jumps, try_end, try_end);
    assert(crate::bytecompiler::patches_within(patches, code.len() as int));
    crate::bytecompiler::lemma_patched_len(code, patches);
}

} // verus!
