//! A stack-based bytecode virtual machine over an append-only heap of tagged
//! values, and the parser of the small expression language it serves.
//!
//! The machine: `instr` (addresses and instructions), `data` (heap cells and
//! frames), `render` (number formatting), `vm` (the model, one-instruction
//! transitions and the run loop) and `properties` (laws of the semantics).
//! The parser: `chars` (character classes), `input` (cursor and failures),
//! `util` (lexical parsers), `ast`, and the type, expression, pattern and
//! program parsers.

pub mod instr;
pub mod data;
pub mod render;
pub mod vm;
pub mod properties;

pub mod chars;
pub mod input;
pub mod util;
pub mod ast;
pub mod type_parser;
pub mod expr_parser;
pub mod pattern_parser;
pub mod parser;
