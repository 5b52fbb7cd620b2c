//! The lexer: a cursor over the source characters that hands out one token at a
//! time.
use vstd::prelude::*;

use crate::text::{
    decimal_digits, digits_value, is_digit, is_digit_spec, is_whitespace, is_whitespace_spec,
    lemma_decimal_digits, lemma_digits_value_prefix, push_char,
};

verus! {

/// One lexical token.
#[derive(Clone, Debug, PartialEq)]
pub enum Tokens {
    /// `(`
    LPAREN,
    /// `)`
    RPAREN,
    /// `'`
    QUOTE,
    /// A maximal run of characters that are neither whitespace nor `)`.
    Atom(String),
    /// A run of decimal digits that fits in `i64`.
    Int(i64),
    /// A decimal literal with a fractional part, kept as written
    /// (`digits.digits`).
    Float(String),
    /// `#t` or `#f`
    Boolean(bool),
    /// `#\c`
    Char(char),
    /// A lexically invalid token.
    Unknown,
    /// No characters remain.
    EOF,
}

/// The mathematical form of a token.
pub enum Lexeme {
    LParen,
    RParen,
    Quote,
    Atom(Seq<char>),
    Int(i64),
    Float(Seq<char>),
    Boolean(bool),
    Char(char),
    Unknown,
    Eof,
}

impl View for Tokens {
    type V = Lexeme;

    open spec fn view(&self) -> Lexeme {
        match self {
            Tokens::LPAREN => Lexeme::LParen,
            Tokens::RPAREN => Lexeme::RParen,
            Tokens::QUOTE => Lexeme::Quote,
            Tokens::Atom(s) => Lexeme::Atom(s@),
            Tokens::Int(i) => Lexeme::Int(*i),
            Tokens::Float(s) => Lexeme::Float(s@),
            Tokens::Boolean(b) => Lexeme::Boolean(*b),
            Tokens::Char(c) => Lexeme::Char(*c),
            Tokens::Unknown => Lexeme::Unknown,
            Tokens::EOF => Lexeme::Eof,
        }
    }
}

/// A character that may continue an atom.
pub open spec fn is_atom_char(c: char) -> bool {
    !is_whitespace_spec(c) && c != ')'
}

/// The first index at or after `i` whose character does not satisfy `p`
/// (or the end of `t`).
pub open spec fn run_end(t: Seq<char>, i: int, p: spec_fn(char) -> bool) -> int
    decreases t.len() - i,
{
    if 0 <= i < t.len() && p(t[i]) {
        run_end(t, i + 1, p)
    } else {
        i
    }
}

/// A numeric or character literal must end here: at the end of the text, at
/// whitespace, or at `)`.
pub open spec fn literal_ends_at(t: Seq<char>, k: int) -> bool {
    k >= t.len() || is_whitespace_spec(t[k]) || t[k] == ')'
}

/// The token of a literal that starts with a digit at `s`, and where it ends.
pub open spec fn number_at(t: Seq<char>, s: int) -> (Lexeme, int) {
    let e = run_end(t, s, |c: char| is_digit_spec(c));
    if e < t.len() && t[e] == '.' {
        let f = run_end(t, e + 1, |c: char| is_digit_spec(c));
        if literal_ends_at(t, f) {
            (Lexeme::Float(t.subrange(s, f)), f)
        } else {
            (Lexeme::Unknown, f)
        }
    } else if literal_ends_at(t, e) && digits_value(t.subrange(s, e)) <= i64::MAX {
        (Lexeme::Int(digits_value(t.subrange(s, e)) as i64), e)
    } else {
        (Lexeme::Unknown, e)
    }
}

/// The token of a literal whose `#` stands just before `k`, and where it ends.
pub open spec fn hash_at(t: Seq<char>, k: int) -> (Lexeme, int) {
    if k >= t.len() {
        (Lexeme::Unknown, k)
    } else if t[k] == 't' {
        (Lexeme::Boolean(true), k + 1)
    } else if t[k] == 'f' {
        (Lexeme::Boolean(false), k + 1)
    } else if t[k] == '\\' {
        if k + 1 >= t.len() {
            (Lexeme::Unknown, k + 1)
        } else if literal_ends_at(t, k + 2) {
            (Lexeme::Char(t[k + 1]), k + 2)
        } else {
            (Lexeme::Unknown, k + 2)
        }
    } else {
        (Lexeme::Unknown, k + 1)
    }
}

/// The token that starts at or after position `i` of `t` (after whitespace),
/// and the position just past it.
pub open spec fn token_at(t: Seq<char>, i: int) -> (Lexeme, int) {
    let s = run_end(t, i, |c: char| is_whitespace_spec(c));
    if s >= t.len() {
        (Lexeme::Eof, s)
    } else if t[s] == '(' {
        (Lexeme::LParen, s + 1)
    } else if t[s] == ')' {
        (Lexeme::RParen, s + 1)
    } else if t[s] == '\'' {
        (Lexeme::Quote, s + 1)
    } else if is_digit_spec(t[s]) {
        number_at(t, s)
    } else if t[s] == '#' {
        hash_at(t, s + 1)
    } else {
        let e = run_end(t, s, |c: char| is_atom_char(c));
        (Lexeme::Atom(t.subrange(s, e)), e)
    }
}

pub proof fn lemma_run_end_bounds(t: Seq<char>, i: int, p: spec_fn(char) -> bool)
    requires
        0 <= i <= t.len(),
    ensures
        i <= run_end(t, i, p) <= t.len(),
        forall|k: int| i <= k < run_end(t, i, p) ==> p(#[trigger] t[k]),
        run_end(t, i, p) < t.len() ==> !p(t[run_end(t, i, p)]),
    decreases t.len() - i,
{
    if i < t.len() && p(t[i]) {
        lemma_run_end_bounds(t, i + 1, p);
    }
}

/// `run_end` is the only position that ends a run of `p` that starts at `i`.
pub proof fn lemma_run_end_unique(t: Seq<char>, i: int, j: int, p: spec_fn(char) -> bool)
    requires
        0 <= i <= j <= t.len(),
        forall|k: int| i <= k < j ==> p(#[trigger] t[k]),
        j < t.len() ==> !p(t[j]),
    ensures
        run_end(t, i, p) == j,
    decreases j - i,
{
    if i < j {
        lemma_run_end_unique(t, i + 1, j, p);
    }
}

/// Every token but the end of input consumes at least one character, and no
/// token reaches past the end of the text.
pub proof fn lemma_token_progress(t: Seq<char>, i: int)
    requires
        0 <= i <= t.len(),
    ensures
        i <= token_at(t, i).1 <= t.len(),
        !(token_at(t, i).0 is Eof) ==> i < token_at(t, i).1,
        token_at(t, i).0 is Eof ==> token_at(t, i).1 == t.len(),
{
    let ws = |c: char| is_whitespace_spec(c);
    let dg = |c: char| is_digit_spec(c);
    let at = |c: char| is_atom_char(c);
    lemma_run_end_bounds(t, i, ws);
    let s = run_end(t, i, ws);
    if s < t.len() {
        lemma_run_end_bounds(t, s, dg);
        lemma_run_end_bounds(t, s, at);
        let e = run_end(t, s, dg);
        if e < t.len() {
            lemma_run_end_bounds(t, e + 1, dg);
        }
    }
}

/// Lexing the decimal text of a non-negative integer yields that integer and
/// stops at the end of the text; lexing again there yields the end of input
/// and stays at the end, however often it is repeated.
pub proof fn lemma_integer_literal_then_eof(n: i64)
    requires
        n >= 0,
    ensures
        ({
            let t = decimal_digits(n as nat);
            &&& token_at(t, 0) == (Lexeme::Int(n), t.len() as int)
            &&& token_at(t, t.len() as int) == (Lexeme::Eof, t.len() as int)
        }),
{
    let t = decimal_digits(n as nat);
    lemma_decimal_digits(n as nat);
    let ws = |c: char| is_whitespace_spec(c);
    let dg = |c: char| is_digit_spec(c);
    lemma_run_end_unique(t, 0, 0, ws);
    lemma_run_end_unique(t, 0, t.len() as int, dg);
    lemma_run_end_unique(t, t.len() as int, t.len() as int, ws);
    assert(t.subrange(0, t.len() as int) =~= t);
}

/// The value of the digits `t[start..end]`, when it fits in `i64`.
fn digits_to_i64(t: &Vec<char>, start: usize, end: usize) -> (r: Option<i64>)
    requires
        start <= end <= t.len(),
        forall|k: int| start <= k < end ==> is_digit_spec(#[trigger] t@[k]),
    ensures
        digits_value(t@.subrange(start as int, end as int)) <= i64::MAX ==> r == Some(
            digits_value(t@.subrange(start as int, end as int)) as i64,
        ),
        digits_value(t@.subrange(start as int, end as int)) > i64::MAX ==> r is None,
{
    let ghost d = t@.subrange(start as int, end as int);
    let mut acc: i64 = 0;
    let mut i: usize = start;
    while i < end
        invariant
            start <= i <= end <= t.len(),
            d == t@.subrange(start as int, end as int),
            forall|k: int| 0 <= k < d.len() ==> is_digit_spec(#[trigger] d[k]),
            acc == digits_value(d.subrange(0, i - start)),
        decreases end - i,
    {
        proof {
            assert(d[i - start] == t@[i as int]);
        }
        let v = (t[i] as u32 - 48) as i64;
        proof {
            let p = d.subrange(0, i - start + 1);
            assert(p.drop_last() =~= d.subrange(0, i - start));
        }
        if acc > (i64::MAX - v) / 10 {
            proof {
                lemma_digits_value_prefix(d, i - start + 1);
            }
            return None;
        }
        acc = acc * 10 + v;
        i = i + 1;
    }
    proof {
        assert(d.subrange(0, d.len() as int) =~= d);
    }
    Some(acc)
}

/// Whether `c` may continue an atom.
pub fn atom_char(c: char) -> (r: bool)
    ensures
        r == is_atom_char(c),
{
    !is_whitespace(c) && c != ')'
}

/// A cursor over the characters of a source text.
pub struct Cursor {
    text: Vec<char>,
    pos: usize,
}

impl View for Cursor {
    /// The whole text, and the position of the next character to read.
    type V = (Seq<char>, int);

    closed spec fn view(&self) -> (Seq<char>, int) {
        (self.text@, self.pos as int)
    }
}

impl Cursor {
    /// The position never passes the end of the text.
    pub closed spec fn wf(&self) -> bool {
        self.pos <= self.text.len()
    }

    pub proof fn lemma_wf(&self)
        requires
            self.wf(),
        ensures
            0 <= self@.1 <= self@.0.len(),
            self@.1 <= usize::MAX,
    {
    }

    /// A cursor at the start of `text`.
    pub fn new(text: &str) -> (r: Cursor)
        ensures
            r.wf(),
            r@ == (text@, 0int),
    {
        let mut chars: Vec<char> = Vec::new();
        for c in it: text.chars()
            invariant
                it.seq() == text@,
                chars@ == it.seq().subrange(0, it.index() as int),
        {
            chars.push(c);
        }
        proof {
            assert(chars@ =~= text@);
        }
        Cursor { text: chars, pos: 0 }
    }

    /// The next character, or `'\0'` when none remains.
    pub fn peek(&self) -> (c: char)
        requires
            self.wf(),
        ensures
            self@.1 < self@.0.len() ==> c == self@.0[self@.1],
            self@.1 >= self@.0.len() ==> c == '\0',
    {
        if self.pos < self.text.len() {
            self.text[self.pos]
        } else {
            '\0'
        }
    }

    /// At the end of the text, or before whitespace.
    pub fn is_delimiter(&self) -> (r: bool)
        requires
            self.wf(),
        ensures
            r == (self@.1 >= self@.0.len() || is_whitespace_spec(self@.0[self@.1])),
    {
        self.is_eof() || is_whitespace(self.peek())
    }

    /// No character remains.
    pub fn is_eof(&self) -> (r: bool)
        requires
            self.wf(),
        ensures
            r == (self@.1 >= self@.0.len()),
    {
        self.pos >= self.text.len()
    }

    /// Some character remains.
    pub fn has_next(&self) -> (r: bool)
        requires
            self.wf(),
        ensures
            r == (self@.1 < self@.0.len()),
    {
        !self.is_eof()
    }

    /// Takes the next character, if any.
    pub fn consume(&mut self) -> (r: Option<char>)
        requires
            old(self).wf(),
        ensures
            final(self).wf(),
            final(self)@.0 == old(self)@.0,
            old(self)@.1 < old(self)@.0.len() ==> r == Some(old(self)@.0[old(self)@.1])
                && final(self)@.1 == old(self)@.1 + 1,
            old(self)@.1 >= old(self)@.0.len() ==> r is None && final(self)@ == old(self)@,
    {
        if self.pos < self.text.len() {
            let c = self.text[self.pos];
            self.pos = self.pos + 1;
            Some(c)
        } else {
            None
        }
    }

    /// Skips whitespace.
    pub fn consume_delimiter(&mut self)
        requires
            old(self).wf(),
        ensures
            final(self).wf(),
            final(self)@.0 == old(self)@.0,
            final(self)@.1 == run_end(old(self)@.0, old(self)@.1, |c: char| is_whitespace_spec(c)),
    {
        self.consume_while(is_whitespace);
        proof {
            lemma_run_end_unique(self@.0, old(self)@.1, self@.1, |c: char| is_whitespace_spec(c));
        }
    }

    /// Takes the longest run of characters that satisfy `predicate`, and
    /// returns it.
    pub fn consume_while_clone<F: Fn(char) -> bool>(&mut self, predicate: F) -> (s: String)
        requires
            old(self).wf(),
            forall|c: char| #[trigger] predicate.requires((c,)),
        ensures
            final(self).wf(),
            final(self)@.0 == old(self)@.0,
            old(self)@.1 <= final(self)@.1 <= old(self)@.0.len(),
            forall|k: int|
                old(self)@.1 <= k < final(self)@.1 ==> predicate.ensures((#[trigger] old(self)@.0[k],), true),
            final(self)@.1 < old(self)@.0.len() ==> predicate.ensures(
                (old(self)@.0[final(self)@.1],),
                false,
            ),
            s@ == old(self)@.0.subrange(old(self)@.1, final(self)@.1),
    {
        let mut s = String::new();
        let ghost start = self.pos as int;
        while self.pos < self.text.len()
            invariant
                self.wf(),
                self.text@ == old(self).text@,
                start == old(self).pos,
                start <= self.pos,
                forall|c: char| #[trigger] predicate.requires((c,)),
                forall|k: int| start <= k < self.pos ==> predicate.ensures((#[trigger] self.text@[k],), true),
                s@ == self.text@.subrange(start, self.pos as int),
            ensures
                self.pos < self.text.len() ==> predicate.ensures((self.text@[self.pos as int],), false),
            decreases self.text.len() - self.pos,
        {
            let c = self.text[self.pos];
            if !predicate(c) {
                break;
            }
            push_char(&mut s, c);
            self.pos = self.pos + 1;
            proof {
                assert(s@ =~= self.text@.subrange(start, self.pos as int));
            }
        }
        s
    }

    /// At the end of the text, before whitespace, or before `)`: where a
    /// numeric or character literal may end.
    pub fn is_literal_end(&self) -> (r: bool)
        requires
            self.wf(),
        ensures
            r == literal_ends_at(self@.0, self@.1),
    {
        self.is_delimiter() || self.peek() == ')'
    }

    /// Skips whitespace, then reads one token and moves past it. At the end of
    /// the text it returns `EOF` and leaves the cursor where it is.
    pub fn get_next_token(&mut self) -> (r: Tokens)
        requires
            old(self).wf(),
        ensures
            final(self).wf(),
            final(self)@.0 == old(self)@.0,
            (r@, final(self)@.1) == token_at(old(self)@.0, old(self)@.1),
            old(self)@.1 >= old(self)@.0.len() ==> r is EOF && final(self)@ == old(self)@,
    {
        self.consume_delimiter();
        if self.is_eof() {
            return Tokens::EOF;
        }
        let c = self.peek();
        if c == '(' {
            self.consume();
            Tokens::LPAREN
        } else if c == ')' {
            self.consume();
            Tokens::RPAREN
        } else if c == '\'' {
            self.consume();
            Tokens::QUOTE
        } else if is_digit(c) {
            self.get_number()
        } else if c == '#' {
            self.get_hashtag_literals()
        } else {
            let ghost s = self@.1;
            let atom = self.consume_while_clone(atom_char);
            proof {
                lemma_run_end_unique(self@.0, s, self@.1, |c: char| is_atom_char(c));
            }
            Tokens::Atom(atom)
        }
    }

    /// Reads a literal that starts with a digit.
    pub fn get_number(&mut self) -> (r: Tokens)
        requires
            old(self).wf(),
            old(self)@.1 < old(self)@.0.len(),
            is_digit_spec(old(self)@.0[old(self)@.1]),
        ensures
            final(self).wf(),
            final(self)@.0 == old(self)@.0,
            (r@, final(self)@.1) == number_at(old(self)@.0, old(self)@.1),
    {
        let start = self.pos;
        let number = self.consume_while_clone(is_digit);
        proof {
            lemma_run_end_unique(self@.0, start as int, self@.1, |c: char| is_digit_spec(c));
        }
        if self.has_next() && self.peek() == '.' {
            let ghost e = self@.1;
            let ghost left = number@;
            let r = self.get_float_after_dot(number);
            proof {
                lemma_run_end_bounds(self@.0, e + 1, |c: char| is_digit_spec(c));
                assert(left + self@.0.subrange(e, self@.1) =~= self@.0.subrange(start as int, self@.1));
            }
            r
        } else if self.is_literal_end() {
            match digits_to_i64(&self.text, start, self.pos) {
                Some(v) => Tokens::Int(v),
                None => Tokens::Unknown,
            }
        } else {
            Tokens::Unknown
        }
    }

    /// Reads the fractional part of a decimal literal whose digits before the
    /// point, `left_part`, were read already.
    fn get_float_after_dot(&mut self, left_part: String) -> (r: Tokens)
        requires
            old(self).wf(),
            old(self)@.1 < old(self)@.0.len(),
            old(self)@.0[old(self)@.1] == '.',
        ensures
            final(self).wf(),
            final(self)@.0 == old(self)@.0,
            final(self)@.1 == run_end(old(self)@.0, old(self)@.1 + 1, |c: char| is_digit_spec(c)),
            literal_ends_at(old(self)@.0, final(self)@.1) ==> r@ == Lexeme::Float(
                left_part@ + old(self)@.0.subrange(old(self)@.1, final(self)@.1),
            ),
            !literal_ends_at(old(self)@.0, final(self)@.1) ==> r is Unknown,
    {
        let ghost left = left_part@;
        let mut left_part = left_part;
        let ghost dot = self.pos as int;
        self.consume();
        let after_dot = self.consume_while_clone(is_digit);
        proof {
            lemma_run_end_unique(self@.0, dot + 1, self@.1, |c: char| is_digit_spec(c));
        }
        push_char(&mut left_part, '.');
        crate::text::push_str(&mut left_part, after_dot.as_str());
        proof {
            assert(left_part@ =~= left + self@.0.subrange(dot, self@.1));
        }
        if self.is_literal_end() {
            Tokens::Float(left_part)
        } else {
            Tokens::Unknown
        }
    }

    /// Reads the literal after a `#`: `#t`, `#f` or `#\c`.
    fn get_hashtag_literals(&mut self) -> (r: Tokens)
        requires
            old(self).wf(),
            old(self)@.1 < old(self)@.0.len(),
            old(self)@.0[old(self)@.1] == '#',
        ensures
            final(self).wf(),
            final(self)@.0 == old(self)@.0,
            (r@, final(self)@.1) == hash_at(old(self)@.0, old(self)@.1 + 1),
    {
        self.consume();
        match self.consume() {
            Some('t') => Tokens::Boolean(true),
            Some('f') => Tokens::Boolean(false),
            Some('\\') => self.get_char(),
            Some(_) => Tokens::Unknown,
            None => Tokens::Unknown,
        }
    }

    /// Reads the character of a `#\c` literal, whose `#\` was read already.
    fn get_char(&mut self) -> (r: Tokens)
        requires
            old(self).wf(),
        ensures
            final(self).wf(),
            final(self)@.0 == old(self)@.0,
            old(self)@.1 >= old(self)@.0.len() ==> r is Unknown && final(self)@.1 == old(self)@.1,
            old(self)@.1 < old(self)@.0.len() ==> final(self)@.1 == old(self)@.1 + 1 && (if literal_ends_at(
                old(self)@.0,
                old(self)@.1 + 1,
            ) {
                r@ == Lexeme::Char(old(self)@.0[old(self)@.1])
            } else {
                r is Unknown
            }),
    {
        match self.consume() {
            Some(c) => {
                if self.is_literal_end() {
                    Tokens::Char(c)
                } else {
                    Tokens::Unknown
                }
            },
            None => Tokens::Unknown,
        }
    }

    /// Skips the longest run of characters that satisfy `predicate`.
    pub fn consume_while<F: Fn(char) -> bool>(&mut self, predicate: F)
        requires
            old(self).wf(),
            forall|c: char| #[trigger] predicate.requires((c,)),
        ensures
            final(self).wf(),
            final(self)@.0 == old(self)@.0,
            old(self)@.1 <= final(self)@.1 <= old(self)@.0.len(),
            forall|k: int|
                old(self)@.1 <= k < final(self)@.1 ==> predicate.ensures((#[trigger] old(self)@.0[k],), true),
            final(self)@.1 < old(self)@.0.len() ==> predicate.ensures(
                (old(self)@.0[final(self)@.1],),
                false,
            ),
    {
        let ghost start = self.pos as int;
        while self.pos < self.text.len()
            invariant
                self.wf(),
                self.text@ == old(self).text@,
                start == old(self).pos,
                start <= self.pos,
                forall|c: char| #[trigger] predicate.requires((c,)),
                forall|k: int| start <= k < self.pos ==> predicate.ensures((#[trigger] self.text@[k],), true),
            ensures
                self.pos < self.text.len() ==> predicate.ensures((self.text@[self.pos as int],), false),
            decreases self.text.len() - self.pos,
        {
            if !predicate(self.text[self.pos]) {
                break;
            }
            self.pos = self.pos + 1;
        }
    }
}

} // verus!
