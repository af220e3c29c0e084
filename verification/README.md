# miden_vm

A verified model of a stack-machine processor's input/output operations and of the
layout decisions of its assembler, written in Verus.

- `src/felt.rs`: field elements, kept in canonical form.
- `src/stack.rs`: the operand stack with its execution trace; the top sixteen items live in the
  trace row, deeper items in an overflow table.
- `src/memory.rs`: word-addressed memory that reads as zeros where nothing was written.
- `src/advice.rs`: the advice tape of non-deterministic inputs.
- `src/process.rs`: the processor, its abstract state (`ProcessState`) and the specification of
  every operation (`execute_spec`); `execute_op` runs one operation and commits its trace row.
- `src/io_ops.rs`, `src/stack_ops.rs`: the operations themselves (`PUSH`, `PAD`, `LOADW`,
  `STOREW`, `READ`, `READW`).
- `src/laws.rs`: properties that span operations, proved over `execute_spec`.
- `src/assembly.rs`: the label of an imported module, the dependency chain that detects
  circular imports, and the order of a script's leading tokens.
- `src/modules.rs`: import resolution against a library of modules: the cache of parsed
  modules, recursive imports through one dependency chain, the exported procedures a module
  provides, and the `Assembler` that resolves a script's imports and checks its layout. The
  whole of it is specified by `import_spec`, `module_spec` and `imports_spec`.
- `src/resolution.rs`: resolution of imports with no cache at all, and the proof that a sound
  cache (every cache that imports leave) never changes what importing gives.
