//! A small compiler for a `begin ... end` language of integer assignments
//! and the two built-in syscalls `read` and `write`.
//!
//! The pipeline has three stages: a lexer that turns source text into
//! tokens, a recursive-descent parser that builds statement syntax trees,
//! and a code generator that assigns each variable a stack-frame slot and
//! emits textual instructions for a simple stack machine.

pub mod ast;
pub mod char_utils;
pub mod codegen;
pub mod lexer;
pub mod text;
