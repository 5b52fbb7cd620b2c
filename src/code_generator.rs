//! Drives the lexer token by token and emits one anonymous function per
//! integer literal.
use vstd::prelude::*;
use vstd::string::StringExecFns;

use crate::assembly_builder::{function_header, render_code, render_data, AssemblyBuilder};
use crate::error::SchemeError;
use crate::instruction::{mov_text, Mov, Register};
use crate::lexer::{lemma_token_progress, token_at, Cursor, Lexeme, Tokens};
use crate::text::{decimal_digits, push_decimal_digits};
use crate::value::Literal;

verus! {

/// The name of the `n`-th anonymous function.
pub open spec fn anonymous_name(n: nat) -> Seq<char> {
    "__scheme__anonymous__function__"@ + decimal_digits(n)
}

/// The lines of the `n`-th anonymous function, which returns `i`.
pub open spec fn int_function(n: nat, i: i64) -> Seq<Seq<char>> {
    function_header(anonymous_name(n)) + seq![
        mov_text(Mov::ImmediateToRegister(i, Register::RAX)),
        "ret"@,
    ]
}

/// The code lines generated from position `pos` of `t` on, when `n`
/// functions were generated before; and whether generation ended at the end
/// of the input or with an error.
pub open spec fn generate(t: Seq<char>, pos: int, n: nat) -> (
    Seq<Seq<char>>,
    Result<(), SchemeError>,
)
    decreases t.len() - pos,
{
    let (tok, j) = token_at(t, pos);
    match tok {
        Lexeme::Eof => (Seq::empty(), Ok(())),
        Lexeme::Unknown => (Seq::empty(), Err(SchemeError::LexError)),
        Lexeme::Int(i) => if pos < j <= t.len() {
            let (rest, r) = generate(t, j, n + 1);
            (int_function(n, i) + rest, r)
        } else {
            // unreachable: an integer consumes at least one character
            (Seq::empty(), Err(SchemeError::LexError))
        },
        _ => (Seq::empty(), Err(SchemeError::Unsupported)),
    }
}

/// The state of a code generator.
pub struct CodeGenView {
    pub text: Seq<char>,
    pub pos: int,
    pub lines: Seq<Seq<char>>,
    pub data: Seq<Literal>,
    pub function_count: nat,
    pub nested_count: nat,
}

/// Walks the tokens of a source text and fills an assembly builder.
pub struct CodeGenerator {
    parser: Cursor,
    asm_builder: AssemblyBuilder,
    function_count: u64,
    nested_count: u64,
}

impl View for CodeGenerator {
    type V = CodeGenView;

    closed spec fn view(&self) -> CodeGenView {
        CodeGenView {
            text: self.parser@.0,
            pos: self.parser@.1,
            lines: self.asm_builder@.0,
            data: self.asm_builder@.1,
            function_count: self.function_count as nat,
            nested_count: self.nested_count as nat,
        }
    }
}

impl CodeGenerator {
    pub closed spec fn wf(&self) -> bool {
        &&& self.parser.wf()
        &&& self.asm_builder.wf()
        &&& self.function_count <= self.parser@.1
    }

    pub fn new(parser: Cursor, builder: AssemblyBuilder) -> (r: CodeGenerator)
        requires
            parser.wf(),
            builder.wf(),
        ensures
            r.wf(),
            r@.text == parser@.0,
            r@.pos == parser@.1,
            r@.lines == builder@.0,
            r@.data == builder@.1,
            r@.function_count == 0,
            r@.nested_count == 0,
    {
        proof {
            parser.lemma_wf();
        }
        CodeGenerator { parser, asm_builder: builder, function_count: 0, nested_count: 0 }
    }

    /// Generates code until the end of the input, or until a token that it
    /// cannot compile: `LexError` for an invalid token, `Unsupported` for a
    /// float, boolean, character or structural token.
    pub fn start(&mut self) -> (r: Result<(), SchemeError>)
        requires
            old(self).wf(),
            old(self)@.nested_count < u64::MAX,
        ensures
            final(self).wf(),
            final(self)@.text == old(self)@.text,
            final(self)@.lines == old(self)@.lines + generate(
                old(self)@.text,
                old(self)@.pos,
                old(self)@.function_count,
            ).0,
            r == generate(old(self)@.text, old(self)@.pos, old(self)@.function_count).1,
            final(self)@.data == old(self)@.data,
            final(self)@.nested_count == old(self)@.nested_count,
    {
        let ghost t = self@.text;
        let ghost whole = generate(t, self@.pos, self@.function_count);
        let ghost start_lines = self@.lines;
        proof {
            assert(start_lines + Seq::<Seq<char>>::empty() =~= start_lines);
        }
        loop
            invariant
                self.wf(),
                self@.text == t,
                t == old(self)@.text,
                start_lines == old(self)@.lines,
                whole == generate(old(self)@.text, old(self)@.pos, old(self)@.function_count),
                self@.data == old(self)@.data,
                self@.nested_count == old(self)@.nested_count,
                old(self)@.nested_count < u64::MAX,
                ({
                    let (rest, r) = generate(t, self@.pos, self@.function_count);
                    self@.lines + rest == start_lines + whole.0 && r == whole.1
                }),
            decreases t.len() - self@.pos,
        {
            let ghost before = self@;
            proof {
                self.parser.lemma_wf();
                lemma_token_progress(t, self@.pos);
            }
            match self.parser.get_next_token() {
                Tokens::Int(i) => {
                    self.emit_int(i);
                    proof {
                        let (rest, r) = generate(t, self@.pos, self@.function_count);
                        assert(before.lines + (int_function(before.function_count, i) + rest)
                            =~= self@.lines + rest);
                    }
                },
                Tokens::Float(_) => {
                    return Err(SchemeError::Unsupported);
                },
                Tokens::Unknown => {
                    return Err(SchemeError::LexError);
                },
                Tokens::EOF => {
                    proof {
                        assert(self@.lines + Seq::<Seq<char>>::empty() =~= self@.lines);
                    }
                    return Ok(());
                },
                _ => {
                    return Err(SchemeError::Unsupported);
                },
            }
        }
    }

    /// Opens a function named `s`.
    pub fn new_fn(&mut self, s: &str)
        requires
            old(self).wf(),
            old(self)@.nested_count < u64::MAX,
        ensures
            final(self).wf(),
            final(self)@ == (CodeGenView {
                lines: old(self)@.lines + function_header(s@),
                nested_count: old(self)@.nested_count + 1,
                ..old(self)@
            }),
    {
        self.asm_builder.new_fn(s);
        self.nested_count = self.nested_count + 1;
    }

    fn new_anonymous_fn(&mut self)
        requires
            old(self).wf(),
            old(self)@.nested_count < u64::MAX,
            old(self)@.function_count < old(self)@.pos,
        ensures
            final(self).wf(),
            final(self)@ == (CodeGenView {
                lines: old(self)@.lines + function_header(anonymous_name(old(self)@.function_count)),
                nested_count: old(self)@.nested_count + 1,
                function_count: old(self)@.function_count + 1,
                ..old(self)@
            }),
    {
        proof {
            self.parser.lemma_wf();
        }
        let mut s = String::from_str("__scheme__anonymous__function__");
        push_decimal_digits(&mut s, self.function_count);
        self.function_count = self.function_count + 1;
        self.new_fn(s.as_str());
    }

    /// Closes the innermost open function with `ret`.
    pub fn ret(&mut self)
        requires
            old(self).wf(),
            old(self)@.nested_count > 0,
        ensures
            final(self).wf(),
            final(self)@ == (CodeGenView {
                lines: old(self)@.lines.push("ret"@),
                nested_count: (old(self)@.nested_count - 1) as nat,
                ..old(self)@
            }),
    {
        self.asm_builder.ret();
        self.nested_count = self.nested_count - 1;
    }

    /// Emits an anonymous function that returns `i`.
    fn emit_int(&mut self, i: i64)
        requires
            old(self).wf(),
            old(self)@.nested_count < u64::MAX,
            old(self)@.function_count < old(self)@.pos,
        ensures
            final(self).wf(),
            final(self)@ == (CodeGenView {
                lines: old(self)@.lines + int_function(old(self)@.function_count, i),
                function_count: old(self)@.function_count + 1,
                ..old(self)@
            }),
    {
        self.new_anonymous_fn();
        self.asm_builder.mov(Mov::ImmediateToRegister(i, Register::RAX));
        self.ret();
        proof {
            assert(self@.lines =~= old(self)@.lines + int_function(old(self)@.function_count, i));
        }
    }

    /// Whether every opened function was closed again.
    pub fn is_balanced(&self) -> (r: bool)
        ensures
            r == (self@.nested_count == 0),
    {
        self.nested_count == 0
    }

    /// The assembly text; every opened function must have been closed.
    pub fn build(&self) -> (r: String)
        requires
            self.wf(),
            self@.nested_count == 0,
        ensures
            r@ == render_code(self@.lines) + render_data(self@.data),
    {
        self.asm_builder.build()
    }
}

} // verus!
