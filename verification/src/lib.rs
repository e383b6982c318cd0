//! Core of a compiler for a small ML-style functional language targeting
//! AArch64. The pipeline carries a surface AST through five intermediate
//! representations:
//!
//! AST -> normalize -> N-IR -> closure -> C-IR -> flat -> F-IR
//!     -> trans_pg -> V-IR -> regalloc -> V-IR with physical registers.
//!
//! Every pass is implemented as executable code whose result is pinned, by
//! its `ensures` clause, to a specification-level model of the pass.
//! Emission of assembly text, file handling and the command line are left to
//! the surrounding application.

pub mod names;
pub mod ast;
pub mod normal;
pub mod closure;
pub mod flat;
pub mod vm;
pub mod regalloc;
pub mod lexer;
pub mod parser;
