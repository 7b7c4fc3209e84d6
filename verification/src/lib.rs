//! Back-end of a decompiler for register-based Lua-family bytecode: the
//! passes that clean a structured abstract syntax tree for display.
//!
//! Locals are modelled as indices into an arena of optional display names,
//! and nested blocks are plain owned trees, so every pass is a function on
//! values that the verifier can read whole.

pub mod ast;
pub mod bytes;
pub mod combine_nested_ifs;
pub mod effects;
pub mod index;
pub mod local;
pub mod name_gen;
pub mod name_locals;
pub mod pipeline;
pub mod replace_locals;
pub mod set_list;
