use vstd::prelude::*;

pub mod ast;
pub mod bench;
pub mod capi;
pub mod bytecode;
pub mod codec;
pub mod codec_spec;
pub mod compiler;
pub mod corpus;
pub mod dom;
pub mod heap;
pub mod interop;
pub mod ir;
pub mod lexer;
pub mod lexer_spec;
pub mod modules;
pub mod parser;
pub mod parser_spec;
pub mod prepared;
pub mod scripts;
pub mod semantic;
pub mod semantic_spec;
pub mod text;
pub mod checker;
pub mod checker_spec;

verus! {

} // verus!
