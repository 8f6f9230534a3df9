//! A compiler and interpreter for a minimal tape-based instruction language.
//!
//! A program is a sequence of instructions over a fixed-size byte tape with a
//! cell pointer.  The library offers two execution strategies with one proved
//! semantics: a tree-walking interpreter, and a code generator that lowers the
//! instruction tree to a flat sequence of jump-target operations (executed by a
//! verified machine) together with the x64 machine-code bytes for that program.
//! An optimizer rewrites instruction sequences into equivalent, faster ones.

pub mod syntax;
pub mod state;
pub mod semantics;
pub mod interpreter;
pub mod optimize;
pub mod lowering;
pub mod x64;
pub mod codegen;
pub mod laws;
