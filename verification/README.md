# boa_engine jump control, verified

The jump-control bookkeeping of a JavaScript bytecode compiler and the
control-flow instructions of the virtual machine that runs its output, with
their behaviour stated in `requires`/`ensures` contracts and proved by Verus.

- `src/jump_control.rs`: the stack of `JumpControlInfo` kept while loops,
  switches, try and labelled statements are compiled, and how each pop patches
  or hands on the recorded `break`/`continue` jumps (with the jump table and
  exits of a `finally`).
- `src/statement.rs`: the walk of `break` and `continue` down that stack,
  and the code and records that compiling them leaves.
- `src/try_statement.rs`: compilation of `try`/`catch`/`finally`, whose
  blocks are given as the code they compile to and the jumps that leave
  them.
- `src/bytecompiler.rs`, `src/opcode.rs`: the word-addressed code buffer,
  labels and patching.
- `src/vm.rs`, `src/call_frame.rs`, `src/control_flow.rs`, `src/loop_ops.rs`:
  the machine state and the jump, throw, try and loop instructions.
- `src/syntax.rs`, `src/interner.rs`, `src/text.rs`: the `throw`, `break` and
  `continue` nodes, interned strings, and decimal numerals.

Laws that span several functions are public proof functions named `law_*`.
