# mutest

The decision-making core of a mutation testing tool for Rust, verified with Verus.

`src/` is the library, with each function's behaviour stated in its contract, as far as the
standard library and serde_json document what it calls:

- `exit_code`: the codes a run exits with, how the codes of several harnesses combine, and the
  log in which each harness records its start and exit (what is written reads back, and a line
  that records nothing changes nothing).
- `build_status`: how a failed build is named, on one line, in the marker shared by the builds of
  a run.
- `stop`: a stop request that keeps the first reason it was given.
- `tool_attr`: the tool attributes read on items, and those that register the tool with a crate.
- `ast` and the operators `fn_return_default`, `match_arm_delete`, `match_guard_value`,
  `struct_field_delete`, `unary_op_delete`, `continue_break_swap`: for the syntax each operator
  looks at, exactly which mutations it produces; every value `fn_return_default` returns
  type-checks as the function's return type, and a deleted match arm never leaves a match without
  its catch-all arm.
- `journal`: the lines of the mutation journal, parsed and printed as JSON through serde_json,
  what a journal of such lines records, which mutations a crashed worker left unfinished, and
  what a later worker carries over.
- `supervisor`: the supervisor's decisions: where a stop signal goes, whether a worker may start,
  how a run ends, which processes are its children, and how long they are killed for.
- `inject`: where the runtime a harness links is found, and the externs the compiler is given.
- `text`: the character-level parsing and printing the others share.

`app/` is the ordinary Rust around it: the files, the environment, processes and signals, and the
compiler options the runtime is linked with. `tests/` runs the library on concrete values.
