//! A small Scheme-like language: a lexer, a parser producing symbolic
//! expressions, a tree-walking interpreter over a stack of binding frames, and
//! a code generator that emits x86-64 assembly in AT&T syntax.
use vstd::prelude::*;

pub mod assembly_builder;
pub mod code_generator;
pub mod environment;
pub mod error;
pub mod instruction;
pub mod interpreter;
pub mod lexer;
pub mod parser;
pub mod text;
pub mod value;

use crate::assembly_builder::{render_code, render_data, AssemblyBuilder};
use crate::code_generator::{generate, CodeGenerator};
use crate::error::SchemeError;
use crate::lexer::Cursor;
use crate::value::Literal;

verus! {

/// Compiles a source text to assembly: one anonymous function for each
/// integer literal, in order. Fails on the first token that is invalid
/// (`LexError`) or that cannot be compiled yet (`Unsupported`).
pub fn compile(source: String) -> (r: Result<String, SchemeError>)
    ensures
        match r {
            Ok(s) => generate(source@, 0, 0).1 is Ok && s@ == render_code(generate(source@, 0, 0).0),
            Err(e) => generate(source@, 0, 0).1 == Err::<(), SchemeError>(e),
        },
{
    let assembly_builder = AssemblyBuilder::new();
    let parser = Cursor::new(source.as_str());
    let mut codegen = CodeGenerator::new(parser, assembly_builder);
    match codegen.start() {
        Ok(()) => {
            let s = codegen.build();
            proof {
                assert(render_data(Seq::<Literal>::empty()) == Seq::<char>::empty());
                assert(Seq::<Seq<char>>::empty() + generate(source@, 0, 0).0 =~= generate(
                    source@,
                    0,
                    0,
                ).0);
                assert(s@ =~= render_code(generate(source@, 0, 0).0));
            }
            Ok(s)
        },
        Err(e) => Err(e),
    }
}

} // verus!
