//! x86-64 operands and move instructions, rendered in AT&T syntax.
use vstd::prelude::*;
use vstd::string::StringExecFns;

use crate::text::{decimal_of, hex_digits, push_decimal, push_hex_digits, push_str};

verus! {

/// A general-purpose or floating-point register.
#[derive(Debug, Clone, Copy, PartialEq, Eq, Structural)]
pub enum Register {
    RAX,
    RBX,
    RCX,
    RDX,
    RSI,
    RDI,
    RSP,
    RBP,
    RIP,
    XMM0,
}

pub open spec fn register_text(r: Register) -> Seq<char> {
    match r {
        Register::RAX => "%rax"@,
        Register::RBX => "%rbx"@,
        Register::RCX => "%rcx"@,
        Register::RDX => "%rdx"@,
        Register::RSI => "%rsi"@,
        Register::RDI => "%rdi"@,
        Register::RSP => "%rsp"@,
        Register::RBP => "%rbp"@,
        Register::RIP => "%rip"@,
        Register::XMM0 => "%xmm0"@,
    }
}

impl Register {
    /// The register's name after `%`, in lower case.
    pub fn to_string(&self) -> (s: String)
        ensures
            s@ == register_text(*self),
    {
        let name = match self {
            Register::RAX => "%rax",
            Register::RBX => "%rbx",
            Register::RCX => "%rcx",
            Register::RDX => "%rdx",
            Register::RSI => "%rsi",
            Register::RDI => "%rdi",
            Register::RSP => "%rsp",
            Register::RBP => "%rbp",
            Register::RIP => "%rip",
            Register::XMM0 => "%xmm0",
        };
        String::from_str(name)
    }
}

/// A memory operand.
#[derive(Debug, Clone)]
pub enum MemAddr {
    /// An absolute address.
    Address(i64),
    /// `offset(base)`
    OffsetDereference(i64, Register),
    /// `label(base)`
    LabelDereference(String, Register),
}

/// The bits of `a` read as unsigned (two's complement).
pub open spec fn unsigned_bits(a: i64) -> nat {
    if a < 0 {
        (a + 0x1_0000_0000_0000_0000) as nat
    } else {
        a as nat
    }
}

pub open spec fn mem_addr_text(m: MemAddr) -> Seq<char> {
    match m {
        MemAddr::Address(a) => "0x"@ + hex_digits(unsigned_bits(a)),
        MemAddr::OffsetDereference(o, r) => decimal_of(o as int) + "("@ + register_text(r) + ")"@,
        MemAddr::LabelDereference(l, r) => l@ + "("@ + register_text(r) + ")"@,
    }
}

fn push_mem_addr(s: &mut String, m: &MemAddr)
    ensures
        final(s)@ == old(s)@ + mem_addr_text(*m),
{
    match m {
        MemAddr::Address(a) => {
            push_str(s, "0x");
            let bits: u64 = if *a < 0 {
                ((*a + 1 + i64::MAX) as u64) + 0x8000_0000_0000_0000
            } else {
                *a as u64
            };
            push_hex_digits(s, bits);
        },
        MemAddr::OffsetDereference(o, r) => {
            push_decimal(s, *o);
            push_str(s, "(");
            push_str(s, r.to_string().as_str());
            push_str(s, ")");
        },
        MemAddr::LabelDereference(l, r) => {
            push_str(s, l.as_str());
            push_str(s, "(");
            push_str(s, r.to_string().as_str());
            push_str(s, ")");
        },
    }
    proof {
        assert(final(s)@ =~= old(s)@ + mem_addr_text(*m));
    }
}

impl MemAddr {
    /// The operand in AT&T syntax: hexadecimal for an absolute address.
    pub fn to_string(&self) -> (s: String)
        ensures
            s@ == mem_addr_text(*self),
    {
        let mut s = String::new();
        push_mem_addr(&mut s, self);
        proof {
            assert(s@ =~= mem_addr_text(*self));
        }
        s
    }
}

/// A 64-bit move.
#[derive(Debug, Clone)]
pub enum Mov {
    RegisterToRegister(Register, Register),
    ImmediateToRegister(i64, Register),
    RegisterToMem(Register, MemAddr),
    ImmediateToMem(i64, MemAddr),
    MemToRegister(MemAddr, Register),
}

/// `movq source, destination`, with `$` before an immediate.
pub open spec fn mov_text(m: Mov) -> Seq<char> {
    "movq "@ + match m {
        Mov::RegisterToRegister(s, d) => register_text(s) + ", "@ + register_text(d),
        Mov::ImmediateToRegister(i, d) => "$"@ + decimal_of(i as int) + ", "@ + register_text(d),
        Mov::RegisterToMem(s, d) => register_text(s) + ", "@ + mem_addr_text(d),
        Mov::ImmediateToMem(i, d) => "$"@ + decimal_of(i as int) + ", "@ + mem_addr_text(d),
        Mov::MemToRegister(s, d) => mem_addr_text(s) + ", "@ + register_text(d),
    }
}

impl Mov {
    /// The instruction in AT&T syntax.
    pub fn to_string(&self) -> (s: String)
        ensures
            s@ == mov_text(*self),
    {
        let mut s = String::from_str("movq ");
        match self {
            Mov::RegisterToRegister(src, dest) => {
                push_str(&mut s, src.to_string().as_str());
                push_str(&mut s, ", ");
                push_str(&mut s, dest.to_string().as_str());
            },
            Mov::ImmediateToRegister(src, dest) => {
                push_str(&mut s, "$");
                push_decimal(&mut s, *src);
                push_str(&mut s, ", ");
                push_str(&mut s, dest.to_string().as_str());
            },
            Mov::RegisterToMem(src, dest) => {
                push_str(&mut s, src.to_string().as_str());
                push_str(&mut s, ", ");
                push_mem_addr(&mut s, dest);
            },
            Mov::ImmediateToMem(src, dest) => {
                push_str(&mut s, "$");
                push_decimal(&mut s, *src);
                push_str(&mut s, ", ");
                push_mem_addr(&mut s, dest);
            },
            Mov::MemToRegister(src, dest) => {
                push_mem_addr(&mut s, src);
                push_str(&mut s, ", ");
                push_str(&mut s, dest.to_string().as_str());
            },
        }
        proof {
            assert(s@ =~= mov_text(*self));
        }
        s
    }
}

/// A scalar double-precision move.
#[derive(Debug, Clone)]
pub enum MovSd {
    MemToRegister(MemAddr, Register),
}

/// `movsd source, destination`
pub open spec fn movsd_text(m: MovSd) -> Seq<char> {
    "movsd "@ + match m {
        MovSd::MemToRegister(s, d) => mem_addr_text(s) + ", "@ + register_text(d),
    }
}

impl MovSd {
    /// The instruction in AT&T syntax.
    pub fn to_string(&self) -> (s: String)
        ensures
            s@ == movsd_text(*self),
    {
        let mut s = String::from_str("movsd ");
        match self {
            MovSd::MemToRegister(maddr, reg) => {
                push_mem_addr(&mut s, maddr);
                push_str(&mut s, ", ");
                push_str(&mut s, reg.to_string().as_str());
            },
        }
        proof {
            assert(s@ =~= movsd_text(*self));
        }
        s
    }
}

} // verus!
