//! Mutation testing for Rust: the exit codes of a run, the records its harnesses keep, the journal
//! of a worker, the supervisor's decisions, and the mutation operators.
pub mod text;
pub mod exit_code;
pub mod ast;
pub mod fn_return_default;
pub mod match_arm_delete;
pub mod match_guard_value;
pub mod struct_field_delete;
pub mod unary_op_delete;
pub mod continue_break_swap;
pub mod build_status;
pub mod stop;
pub mod tool_attr;
pub mod supervisor;
pub mod journal;
pub mod inject;
