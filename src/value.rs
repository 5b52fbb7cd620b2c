//! Named constants of the assembly output's data section.
use vstd::prelude::*;

use crate::instruction::{MemAddr, Register};
use crate::text::{decimal_digits, decimal_of, hex_digits, push_decimal, push_decimal_digits, push_hex_digits, push_str};

verus! {

/// The payload of a data record.
#[derive(Debug, Clone, Copy, PartialEq, Eq, Structural)]
pub enum Literal {
    Int(i64),
    /// A double, as its IEEE-754 bit pattern.
    Float(u64),
    Boolean(bool),
    Char(char),
}

/// The sized directive and value of a data record.
pub open spec fn directive_text(l: Literal) -> Seq<char> {
    match l {
        Literal::Int(i) => ".quad   "@ + decimal_of(i as int),
        Literal::Float(bits) => ".quad   0x"@ + hex_digits(bits as nat),
        Literal::Boolean(b) => ".byte   "@ + (if b {
            "1"@
        } else {
            "0"@
        }),
        Literal::Char(c) => ".long "@ + decimal_digits(c as u32 as nat),
    }
}

/// `label:`, then the directive on its own line, indented by four spaces.
pub open spec fn record_text(label: Seq<char>, l: Literal) -> Seq<char> {
    label + ":\n    "@ + directive_text(l) + "\n"@
}

/// A labelled constant of the data section.
#[derive(Debug, Clone)]
pub struct Value {
    pub literal: Literal,
    pub label: String,
}

impl Value {
    pub fn new(literal: Literal, label: String) -> (r: Value)
        ensures
            r.literal == literal,
            r.label@ == label@,
    {
        Value { literal, label }
    }

    /// The record's address: its label relative to the instruction pointer.
    pub fn get_address(&self) -> (r: MemAddr)
        ensures
            r matches MemAddr::LabelDereference(l, Register::RIP) && l@ == self.label@,
    {
        MemAddr::LabelDereference(self.label.clone(), Register::RIP)
    }

    /// Appends the record as it stands in the data section.
    pub fn push_text(&self, s: &mut String)
        ensures
            final(s)@ == old(s)@ + record_text(self.label@, self.literal),
    {
        push_str(s, self.label.as_str());
        push_str(s, ":\n    ");
        match self.literal {
            Literal::Int(i) => {
                push_str(s, ".quad   ");
                push_decimal(s, i);
            },
            Literal::Float(bits) => {
                push_str(s, ".quad   0x");
                push_hex_digits(s, bits);
            },
            Literal::Boolean(b) => {
                push_str(s, ".byte   ");
                if b {
                    push_str(s, "1");
                } else {
                    push_str(s, "0");
                }
            },
            Literal::Char(c) => {
                push_str(s, ".long ");
                push_decimal_digits(s, c as u32 as u64);
            },
        }
        push_str(s, "\n");
        proof {
            assert(final(s)@ =~= old(s)@ + record_text(self.label@, self.literal));
        }
    }

    /// The record as it stands in the data section.
    pub fn to_string(&self) -> (r: String)
        ensures
            r@ == record_text(self.label@, self.literal),
    {
        let mut s = String::new();
        self.push_text(&mut s);
        proof {
            assert(s@ =~= record_text(self.label@, self.literal));
        }
        s
    }
}

} // verus!
