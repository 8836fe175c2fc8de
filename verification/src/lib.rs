//! A tree-to-text code generator: walks a typed syntax tree of a small
//! statically-typed source language and emits C source text, lowering type
//! names, translating declarations, functions and statement blocks, and
//! copying expression text through verbatim.

pub mod ast;
pub mod gen;
pub mod laws;
