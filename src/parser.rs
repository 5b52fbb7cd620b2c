//! Symbolic expressions and the recursive-descent parser that builds them.
use vstd::prelude::*;
use vstd::string::StringExecFns;

use crate::error::SchemeError;
use crate::lexer::{lemma_token_progress, token_at, Cursor, Lexeme, Tokens};

verus! {

/// A symbolic expression: parsed syntax and the result of evaluation alike.
#[derive(Debug, PartialEq, Eq, PartialOrd, Ord)]
pub enum LispVal {
    Atom(String),
    List(Vec<LispVal>),
    Integer(i64),
    Bool(bool),
    /// A user-defined function: its parameter names and its body, unevaluated.
    Function { params: Vec<String>, body: Vec<LispVal> },
}

/// The mathematical form of a `LispVal`.
pub enum SExp {
    Atom(Seq<char>),
    List(Seq<SExp>),
    Integer(i64),
    Bool(bool),
    Function { params: Seq<Seq<char>>, body: Seq<SExp> },
}

pub open spec fn sexp_of(v: LispVal) -> SExp
    decreases v,
{
    match v {
        LispVal::Atom(s) => SExp::Atom(s@),
        LispVal::List(xs) => SExp::List(sexps_of(xs@)),
        LispVal::Integer(i) => SExp::Integer(i),
        LispVal::Bool(b) => SExp::Bool(b),
        LispVal::Function { params, body } => SExp::Function {
            params: names_of(params@),
            body: sexps_of(body@),
        },
    }
}

pub open spec fn sexps_of(xs: Seq<LispVal>) -> Seq<SExp>
    decreases xs,
{
    if xs.len() == 0 {
        Seq::empty()
    } else {
        sexps_of(xs.drop_last()).push(sexp_of(xs.last()))
    }
}

pub open spec fn names_of(ns: Seq<String>) -> Seq<Seq<char>> {
    ns.map_values(|n: String| n@)
}

impl View for LispVal {
    type V = SExp;

    open spec fn view(&self) -> SExp {
        sexp_of(*self)
    }
}

/// The views of a sequence of values, one for one.
pub open spec fn views(xs: Seq<LispVal>) -> Seq<SExp> {
    xs.map_values(|x: LispVal| x@)
}

pub broadcast proof fn lemma_sexps_of(xs: Seq<LispVal>)
    ensures
        #[trigger] sexps_of(xs) == views(xs),
    decreases xs.len(),
{
    if xs.len() > 0 {
        lemma_sexps_of(xs.drop_last());
        assert(sexps_of(xs) =~= views(xs));
    } else {
        assert(sexps_of(xs) =~= views(xs));
    }
}

/// The view of a result: the value's view, or the same error.
pub open spec fn result_view(r: Result<LispVal, SchemeError>) -> Result<SExp, SchemeError> {
    match r {
        Ok(v) => Ok(v@),
        Err(e) => Err(e),
    }
}

impl LispVal {
    /// The integer, if this value is one.
    pub fn to_integer(&self) -> (r: Option<i64>)
        ensures
            r == (match self@ {
                SExp::Integer(i) => Some(i),
                _ => None::<i64>,
            }),
    {
        match self {
            LispVal::Integer(i) => Some(*i),
            _ => None,
        }
    }

    /// A copy with the same view.
    pub fn deep_copy(&self) -> (r: LispVal)
        ensures
            r@ == self@,
        decreases self,
    {
        match self {
            LispVal::Atom(s) => {
                let c = s.clone();
                LispVal::Atom(c)
            },
            LispVal::List(xs) => {
                let ys = copy_all(xs);
                proof {
                    lemma_sexps_of(ys@);
                    lemma_sexps_of(xs@);
                }
                LispVal::List(ys)
            },
            LispVal::Integer(i) => LispVal::Integer(*i),
            LispVal::Bool(b) => LispVal::Bool(*b),
            LispVal::Function { params, body } => {
                let ps = copy_names(params);
                let bs = copy_all(body);
                proof {
                    lemma_sexps_of(bs@);
                    lemma_sexps_of(body@);
                }
                LispVal::Function { params: ps, body: bs }
            },
        }
    }
}

impl Clone for LispVal {
    fn clone(&self) -> Self {
        self.deep_copy()
    }
}

/// Copies of every value of `xs`, in order.
pub fn copy_all(xs: &Vec<LispVal>) -> (r: Vec<LispVal>)
    ensures
        views(r@) == views(xs@),
    decreases xs,
{
    let mut r: Vec<LispVal> = Vec::new();
    let mut i: usize = 0;
    while i < xs.len()
        invariant
            i <= xs.len(),
            r@.len() == i,
            views(r@) == views(xs@.subrange(0, i as int)),
        decreases xs.len() - i,
    {
        let v = xs[i].deep_copy();
        let ghost old_r = r@;
        r.push(v);
        i = i + 1;
        proof {
            let s = xs@.subrange(0, i as int);
            assert(s.drop_last() =~= xs@.subrange(0, i - 1));
            assert forall|k: int| 0 <= k < i implies #[trigger] views(r@)[k] == views(s)[k] by {
                if k < i - 1 {
                    assert(views(old_r)[k] == views(s.drop_last())[k]);
                }
            }
            assert(views(r@) =~= views(s));
        }
    }
    proof {
        assert(xs@.subrange(0, i as int) =~= xs@);
    }
    r
}

/// Copies of every name of `ns`, in order.
pub fn copy_names(ns: &Vec<String>) -> (r: Vec<String>)
    ensures
        names_of(r@) == names_of(ns@),
{
    let mut r: Vec<String> = Vec::new();
    let mut i: usize = 0;
    while i < ns.len()
        invariant
            i <= ns.len(),
            r@.len() == i,
            names_of(r@) == names_of(ns@.subrange(0, i as int)),
        decreases ns.len() - i,
    {
        let ghost old_r = r@;
        let n = ns[i].clone();
        r.push(n);
        i = i + 1;
        proof {
            let s = ns@.subrange(0, i as int);
            assert(s.drop_last() =~= ns@.subrange(0, i - 1));
            assert forall|k: int| 0 <= k < i implies #[trigger] names_of(r@)[k] == names_of(s)[k] by {
                if k < i - 1 {
                    assert(names_of(old_r)[k] == names_of(s.drop_last())[k]);
                }
            }
            assert(names_of(r@) =~= names_of(s));
        }
    }
    proof {
        assert(ns@.subrange(0, i as int) =~= ns@);
    }
    r
}

} // verus!

verus! {

/// The expression that a token starts, when the token was read at a position
/// just before `j`, and the position just past the expression.
pub open spec fn parse_token(t: Seq<char>, tok: Lexeme, j: int) -> (
    Result<SExp, SchemeError>,
    int,
)
    decreases t.len() - j, 2int,
{
    match tok {
        Lexeme::LParen => parse_items(t, j, Seq::empty()),
        Lexeme::RParen => (Err(SchemeError::ParseError), j),
        Lexeme::Quote => {
            let (r, k) = parse_at(t, j);
            match r {
                Ok(v) => (Ok(SExp::List(seq![SExp::Atom("quote"@), v])), k),
                Err(e) => (Err(e), k),
            }
        },
        Lexeme::Atom(s) => (Ok(SExp::Atom(s)), j),
        Lexeme::Int(i) => (Ok(SExp::Integer(i)), j),
        Lexeme::Boolean(b) => (Ok(SExp::Bool(b)), j),
        Lexeme::Float(_) => (Err(SchemeError::Unsupported), j),
        Lexeme::Char(_) => (Err(SchemeError::Unsupported), j),
        Lexeme::Unknown => (Err(SchemeError::LexError), j),
        Lexeme::Eof => (Err(SchemeError::ParseError), j),
    }
}

/// One complete expression read from position `i` of `t`, and the position
/// just past it.
pub open spec fn parse_at(t: Seq<char>, i: int) -> (Result<SExp, SchemeError>, int)
    decreases t.len() - i, 1int,
{
    let (tok, j) = token_at(t, i);
    if tok is Eof {
        (Err(SchemeError::ParseError), j)
    } else if i < j <= t.len() {
        parse_token(t, tok, j)
    } else {
        // unreachable: every other token consumes a character (see
        // `lemma_token_progress`); this keeps the definition well-founded
        (Err(SchemeError::ParseError), j)
    }
}

/// The rest of a list whose `(` and first items (`acc`) were read already,
/// up to and including its `)`.
pub open spec fn parse_items(t: Seq<char>, i: int, acc: Seq<SExp>) -> (
    Result<SExp, SchemeError>,
    int,
)
    decreases t.len() - i, 1int,
{
    let (tok, j) = token_at(t, i);
    if tok is RParen {
        (Ok(SExp::List(acc)), j)
    } else if tok is Eof {
        (Err(SchemeError::ParseError), j)
    } else if i < j <= t.len() {
        let (r, k) = parse_token(t, tok, j);
        match r {
            Err(e) => (Err(e), k),
            Ok(v) => if j <= k <= t.len() {
                parse_items(t, k, acc.push(v))
            } else {
                (Err(SchemeError::ParseError), k)
            },
        }
    } else {
        (Err(SchemeError::ParseError), j)
    }
}

/// A parser that reads expressions from a source text.
pub struct Parser {
    lexer: Cursor,
}

impl View for Parser {
    /// The whole text, and the position of the next character to read.
    type V = (Seq<char>, int);

    closed spec fn view(&self) -> (Seq<char>, int) {
        self.lexer@
    }
}

impl Parser {
    pub closed spec fn wf(&self) -> bool {
        self.lexer.wf()
    }

    /// A parser at the start of `text`.
    pub fn new(text: &str) -> (r: Parser)
        ensures
            r.wf(),
            r@ == (text@, 0int),
    {
        Parser { lexer: Cursor::new(text) }
    }

    /// Reads one complete expression and moves past it.
    pub fn parse(&mut self) -> (r: Result<LispVal, SchemeError>)
        requires
            old(self).wf(),
        ensures
            final(self).wf(),
            final(self)@.0 == old(self)@.0,
            (result_view(r), final(self)@.1) == parse_at(old(self)@.0, old(self)@.1),
            old(self)@.1 <= final(self)@.1 <= old(self)@.0.len(),
        decreases old(self)@.0.len() - old(self)@.1, 1int,
    {
        proof {
            self.lexer.lemma_wf();
            lemma_token_progress(self@.0, self@.1);
        }
        let tok = self.lexer.get_next_token();
        match tok {
            Tokens::EOF => Err(SchemeError::ParseError),
            _ => self.parse_literals(tok),
        }
    }

    /// The expression that the token `l`, just read, starts.
    fn parse_literals(&mut self, l: Tokens) -> (r: Result<LispVal, SchemeError>)
        requires
            old(self).wf(),
        ensures
            final(self).wf(),
            final(self)@.0 == old(self)@.0,
            (result_view(r), final(self)@.1) == parse_token(old(self)@.0, l@, old(self)@.1),
            old(self)@.1 <= final(self)@.1 <= old(self)@.0.len(),
        decreases old(self)@.0.len() - old(self)@.1, 2int,
    {
        proof {
            self.lexer.lemma_wf();
        }
        match l {
            Tokens::RPAREN => Err(SchemeError::ParseError),
            Tokens::Float(_) => Err(SchemeError::Unsupported),
            Tokens::Char(_) => Err(SchemeError::Unsupported),
            Tokens::Unknown => Err(SchemeError::LexError),
            Tokens::EOF => Err(SchemeError::ParseError),
            Tokens::QUOTE => {
                let quoted = self.parse();
                match quoted {
                    Ok(v) => {
                        let q = String::from_str("quote");
                        let mut items: Vec<LispVal> = Vec::new();
                        items.push(LispVal::Atom(q));
                        items.push(v);
                        proof {
                            lemma_sexps_of(items@);
                            assert(views(items@) =~= seq![SExp::Atom("quote"@), v@]);
                        }
                        Ok(LispVal::List(items))
                    },
                    Err(e) => Err(e),
                }
            },
            Tokens::Atom(s) => Ok(LispVal::Atom(s)),
            Tokens::Int(i) => Ok(LispVal::Integer(i)),
            Tokens::Boolean(b) => Ok(LispVal::Bool(b)),
            Tokens::LPAREN => self.parse_list(),
        }
    }

    /// The rest of a list whose `(` was just read, up to and including its
    /// `)`.
    fn parse_list(&mut self) -> (r: Result<LispVal, SchemeError>)
        requires
            old(self).wf(),
        ensures
            final(self).wf(),
            final(self)@.0 == old(self)@.0,
            (result_view(r), final(self)@.1) == parse_items(old(self)@.0, old(self)@.1, Seq::empty()),
            old(self)@.1 <= final(self)@.1 <= old(self)@.0.len(),
        decreases old(self)@.0.len() - old(self)@.1, 1int,
    {
        let ghost t = self@.0;
        let ghost start = self@.1;
        let mut list_children: Vec<LispVal> = Vec::new();
        proof {
            self.lexer.lemma_wf();
            lemma_sexps_of(list_children@);
        }
        loop
            invariant
                self.wf(),
                self@.0 == t,
                0 <= start <= self@.1 <= t.len(),
                t == old(self)@.0,
                start == old(self)@.1,
                parse_items(t, start, Seq::empty()) == parse_items(t, self@.1, views(list_children@)),
            decreases t.len() - self@.1,
        {
            let ghost before = self@.1;
            proof {
                lemma_token_progress(t, before);
            }
            let tok = self.lexer.get_next_token();
            match tok {
                Tokens::RPAREN => {
                    proof {
                        lemma_sexps_of(list_children@);
                    }
                    return Ok(LispVal::List(list_children));
                },
                Tokens::EOF => {
                    return Err(SchemeError::ParseError);
                },
                _ => {
                    let item = self.parse_literals(tok);
                    match item {
                        Ok(v) => {
                            let ghost old_children = list_children@;
                            list_children.push(v);
                            proof {
                                assert(views(list_children@) =~= views(old_children).push(v@));
                            }
                        },
                        Err(e) => {
                            return Err(e);
                        },
                    }
                },
            }
        }
    }
}

} // verus!
