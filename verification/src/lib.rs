//! A compiler front end and code generator for a small Lisp-syntax
//! expression language: lexing, recursive-descent parsing, lexical
//! scope resolution, and lowering of the syntax tree into a
//! basic-block intermediate representation — with the meaning of
//! both the language and the representation pinned down, and the
//! lowering proved faithful to it.

pub mod compiler;
pub mod errors;
pub mod parser;
pub mod semantics;
