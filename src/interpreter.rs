//! The tree-walking evaluator: special forms, primitive procedures and
//! user-defined functions over an environment of frames.
use vstd::prelude::*;
use vstd::string::StringExecFns;

use crate::environment::{bind, lookup_env, EnvView, Environment};
use crate::error::SchemeError;
use crate::parser::{
    copy_all, lemma_sexps_of, parse_at, result_view, views, LispVal, Parser, SExp,
};

verus! {

/// How deeply evaluation may nest, by default, before it fails with
/// `SchemeError::ResourceExhausted`; chosen so that reaching it fits in a
/// default 2 MiB thread stack with room to spare.
pub const MAX_EVAL_DEPTH: u64 = 4000;

/// The built-in procedures.
#[derive(Debug, Clone, Copy, PartialEq, Eq, Structural)]
pub enum Primitive {
    /// `+`
    Add,
    /// `*`
    Mul,
    /// `-`
    Sub,
    /// `car`
    Car,
    /// `cdr`
    Cdr,
    /// `cons`
    Cons,
    /// `=` and `eq?`
    Eq,
}

/// The primitive that a name denotes, if any.
pub open spec fn primitive_of(name: Seq<char>) -> Option<Primitive> {
    if name == "+"@ {
        Some(Primitive::Add)
    } else if name == "*"@ {
        Some(Primitive::Mul)
    } else if name == "-"@ {
        Some(Primitive::Sub)
    } else if name == "car"@ {
        Some(Primitive::Car)
    } else if name == "cdr"@ {
        Some(Primitive::Cdr)
    } else if name == "cons"@ {
        Some(Primitive::Cons)
    } else if name == "eq?"@ || name == "="@ {
        Some(Primitive::Eq)
    } else {
        None
    }
}

/// Whether every value of `xs` is an integer.
pub open spec fn all_ints(xs: Seq<SExp>) -> bool {
    forall|j: int| 0 <= j < xs.len() ==> (#[trigger] xs[j]) is Integer
}

/// The integer of an integer value.
pub open spec fn int_value(v: SExp) -> int {
    v->Integer_0 as int
}

/// The exact sum of the integers of `xs`.
pub open spec fn sum_of(xs: Seq<SExp>) -> int
    decreases xs.len(),
{
    if xs.len() == 0 {
        0
    } else {
        sum_of(xs.drop_last()) + int_value(xs.last())
    }
}

/// The exact product of the integers of `xs`.
pub open spec fn product_of(xs: Seq<SExp>) -> int
    decreases xs.len(),
{
    if xs.len() == 0 {
        1
    } else {
        product_of(xs.drop_last()) * int_value(xs.last())
    }
}

/// `v` as an integer value when it fits in `i64`, else `Overflow`.
pub open spec fn int_result(v: int) -> Result<SExp, SchemeError> {
    if i64::MIN <= v <= i64::MAX {
        Ok(SExp::Integer(v as i64))
    } else {
        Err(SchemeError::Overflow)
    }
}

/// `=` on evaluated operands: a `TypeError` if any of them is not an
/// integer, wherever it stands; otherwise whether all equal the first.
pub open spec fn all_equal(xs: Seq<SExp>) -> Result<SExp, SchemeError> {
    if exists|j: int| 0 <= j < xs.len() && !(#[trigger] xs[j] is Integer) {
        Err(SchemeError::TypeError)
    } else {
        Ok(SExp::Bool(forall|j: int| 0 <= j < xs.len() ==> #[trigger] xs[j] == xs[0]))
    }
}

/// What a primitive returns on evaluated operands.
pub open spec fn primitive_result(p: Primitive, args: Seq<SExp>) -> Result<SExp, SchemeError> {
    match p {
        Primitive::Add => if !all_ints(args) {
            Err(SchemeError::TypeError)
        } else {
            int_result(sum_of(args))
        },
        Primitive::Mul => if !all_ints(args) {
            Err(SchemeError::TypeError)
        } else {
            int_result(product_of(args))
        },
        Primitive::Sub => if args.len() == 0 {
            Err(SchemeError::ArityError)
        } else if !all_ints(args) {
            Err(SchemeError::TypeError)
        } else {
            int_result(int_value(args[0]) - sum_of(args.drop_first()))
        },
        Primitive::Car => if args.len() != 1 {
            Err(SchemeError::TypeError)
        } else {
            match args[0] {
                SExp::List(xs) => if xs.len() == 0 {
                    Err(SchemeError::TypeError)
                } else {
                    Ok(xs[0])
                },
                _ => Err(SchemeError::TypeError),
            }
        },
        Primitive::Cdr => if args.len() != 1 {
            Err(SchemeError::TypeError)
        } else {
            match args[0] {
                SExp::List(xs) => if xs.len() == 0 {
                    Err(SchemeError::TypeError)
                } else {
                    Ok(SExp::List(xs.drop_first()))
                },
                _ => Err(SchemeError::TypeError),
            }
        },
        Primitive::Cons => if args.len() < 2 {
            Err(SchemeError::ArityError)
        } else {
            match args[1] {
                SExp::List(xs) => Ok(SExp::List(seq![args[0]] + xs)),
                _ => Err(SchemeError::TypeError),
            }
        },
        Primitive::Eq => if args.len() == 0 {
            Err(SchemeError::ArityError)
        } else {
            all_equal(args)
        },
    }
}

/// `e` with each of `ps` bound, in order, to the value at the same position
/// of `vs`.
pub open spec fn bind_params(e: EnvView, ps: Seq<Seq<char>>, vs: Seq<SExp>) -> EnvView
    decreases ps.len(),
{
    if ps.len() == 0 || vs.len() == 0 {
        e
    } else {
        bind_params(bind(e, ps[0], vs[0]), ps.drop_first(), vs.drop_first())
    }
}

/// The function value that `(define (name param...) body...)` builds, when
/// every element of the signature `sig` is an atom.
pub open spec fn function_value(sig: Seq<SExp>, body: Seq<SExp>) -> SExp {
    SExp::Function { params: sig.drop_first().map_values(|p: SExp| p->Atom_0), body }
}

/// `(define (name param...) body...)`: binds `name` to a function value.
pub open spec fn evaluate_define_function(e: EnvView, sig: Seq<SExp>, body: Seq<SExp>) -> (
    EnvView,
    Result<SExp, SchemeError>,
) {
    if sig.len() == 0 || !(sig[0] is Atom) || exists|j: int|
        1 <= j < sig.len() && !(#[trigger] sig[j] is Atom) {
        (e, Err(SchemeError::TypeError))
    } else {
        (bind(e, sig[0]->Atom_0, function_value(sig, body)), Ok(function_value(sig, body)))
    }
}

/// Evaluates `v` in `e`, nesting at most `fuel` evaluations deep: the
/// environment afterwards, and the value or the error.
pub open spec fn evaluate(e: EnvView, v: SExp, fuel: nat) -> (EnvView, Result<SExp, SchemeError>)
    decreases fuel, 0int, 0int,
{
    if fuel == 0 {
        (e, Err(SchemeError::ResourceExhausted))
    } else {
        match v {
            SExp::Atom(s) => (
                e,
                match lookup_env(e, s) {
                    Some(x) => Ok(x),
                    None => Err(SchemeError::UnboundName),
                },
            ),
            SExp::List(items) => evaluate_list(e, items, (fuel - 1) as nat),
            _ => (e, Ok(v)),
        }
    }
}

/// Evaluates a list: the empty list, a special form, or an application.
pub open spec fn evaluate_list(e: EnvView, items: Seq<SExp>, fuel: nat) -> (
    EnvView,
    Result<SExp, SchemeError>,
)
    decreases fuel, 4int, 0int,
{
    if items.len() == 0 {
        (e, Ok(SExp::List(items)))
    } else {
        let ops = items.drop_first();
        match items[0] {
            SExp::Atom(name) => if name == "quote"@ {
                (
                    e,
                    if ops.len() == 0 {
                        Err(SchemeError::ArityError)
                    } else {
                        Ok(ops[0])
                    },
                )
            } else if name == "define"@ {
                evaluate_define(e, ops, fuel)
            } else if name == "if"@ {
                evaluate_if(e, ops, fuel)
            } else {
                evaluate_apply(e, name, ops, fuel)
            },
            _ => (e, Err(SchemeError::TypeError)),
        }
    }
}

/// `(define name value)` or `(define (name param...) body...)`.
pub open spec fn evaluate_define(e: EnvView, ops: Seq<SExp>, fuel: nat) -> (
    EnvView,
    Result<SExp, SchemeError>,
)
    decreases fuel, 1int, 0int,
{
    if ops.len() == 0 {
        (e, Err(SchemeError::ArityError))
    } else {
        match ops[0] {
            SExp::Atom(name) => if ops.len() < 2 {
                (e, Err(SchemeError::ArityError))
            } else {
                let (e1, r) = evaluate(e, ops[1], fuel);
                match r {
                    Ok(val) => (bind(e1, name, val), Ok(val)),
                    Err(x) => (e1, Err(x)),
                }
            },
            SExp::List(sig) => evaluate_define_function(e, sig, ops.drop_first()),
            _ => (e, Err(SchemeError::TypeError)),
        }
    }
}

/// `(if condition consequent)` or `(if condition consequent alternative)`.
pub open spec fn evaluate_if(e: EnvView, ops: Seq<SExp>, fuel: nat) -> (
    EnvView,
    Result<SExp, SchemeError>,
)
    decreases fuel, 1int, 0int,
{
    if ops.len() == 0 {
        (e, Err(SchemeError::ArityError))
    } else {
        let (e1, c) = evaluate(e, ops[0], fuel);
        match c {
            Err(x) => (e1, Err(x)),
            Ok(cv) => if ops.len() == 2 {
                if cv == SExp::Bool(false) {
                    (e1, Err(SchemeError::UnspecifiedReturn))
                } else {
                    evaluate(e1, ops[1], fuel)
                }
            } else if ops.len() == 3 {
                if cv == SExp::Bool(false) {
                    evaluate(e1, ops[2], fuel)
                } else {
                    evaluate(e1, ops[1], fuel)
                }
            } else {
                (e1, Err(SchemeError::ArityError))
            },
        }
    }
}

/// Evaluates `es` from left to right, stopping at the first error.
pub open spec fn evaluate_args(e: EnvView, es: Seq<SExp>, fuel: nat) -> (
    EnvView,
    Result<Seq<SExp>, SchemeError>,
)
    decreases fuel, 2int, es.len(),
{
    if es.len() == 0 {
        (e, Ok(Seq::empty()))
    } else {
        let (e1, r) = evaluate(e, es[0], fuel);
        match r {
            Err(x) => (e1, Err(x)),
            Ok(v) => {
                let (e2, rs) = evaluate_args(e1, es.drop_first(), fuel);
                match rs {
                    Ok(vs) => (e2, Ok(seq![v] + vs)),
                    Err(x) => (e2, Err(x)),
                }
            },
        }
    }
}

/// `(name operand...)`: evaluates the operands, then applies the primitive or
/// the user-defined function that `name` denotes.
pub open spec fn evaluate_apply(e: EnvView, name: Seq<char>, ops: Seq<SExp>, fuel: nat) -> (
    EnvView,
    Result<SExp, SchemeError>,
)
    decreases fuel, 3int, 0int,
{
    let (e1, args) = evaluate_args(e, ops, fuel);
    match args {
        Err(x) => (e1, Err(x)),
        Ok(vs) => match primitive_of(name) {
            Some(p) => (e1, primitive_result(p, vs)),
            None => evaluate_call(e1, name, vs, fuel),
        },
    }
}

/// Applies the user-defined function bound to `name`: a new frame binds its
/// parameters, its first body expression is evaluated there, and the frame is
/// removed again.
pub open spec fn evaluate_call(e: EnvView, name: Seq<char>, args: Seq<SExp>, fuel: nat) -> (
    EnvView,
    Result<SExp, SchemeError>,
)
    decreases fuel, 1int, 0int,
{
    match lookup_env(e, name) {
        None => (e, Err(SchemeError::UnboundName)),
        Some(SExp::Function { params, body }) => if params.len() != args.len() || body.len()
            == 0 {
            (e, Err(SchemeError::ArityError))
        } else {
            let inner = bind_params(e.push(Seq::empty()), params, args);
            let (e2, r) = evaluate(inner, body[0], fuel);
            (e2.drop_last(), r)
        },
        Some(_) => (e, Err(SchemeError::TypeError)),
    }
}

/// Parses one expression from `src` and evaluates it in `e`, nesting at most
/// `depth` evaluations deep.
pub open spec fn interpret_source(e: EnvView, src: Seq<char>, depth: nat) -> (
    EnvView,
    Result<SExp, SchemeError>,
) {
    match parse_at(src, 0).0 {
        Err(x) => (e, Err(x)),
        Ok(ast) => evaluate(e, ast, depth),
    }
}

} // verus!

verus! {

/// The evaluated prefix `pre` put in front of the values of a later
/// evaluation.
pub open spec fn prepend(pre: Seq<SExp>, r: (EnvView, Result<Seq<SExp>, SchemeError>)) -> (
    EnvView,
    Result<Seq<SExp>, SchemeError>,
) {
    (
        r.0,
        match r.1 {
            Ok(vs) => Ok(pre + vs),
            Err(x) => Err(x),
        },
    )
}

/// Whether `s` reads exactly `lit`.
fn name_is(s: &String, lit: &str) -> (r: bool)
    ensures
        r == (s@ == lit@),
{
    let l = String::from_str(lit);
    s.eq(&l)
}

/// Copies of the values of `xs` from position `from` on.
fn copy_from(xs: &Vec<LispVal>, from: usize) -> (r: Vec<LispVal>)
    requires
        from <= xs.len(),
    ensures
        views(r@) == views(xs@).subrange(from as int, xs@.len() as int),
{
    let mut r: Vec<LispVal> = Vec::new();
    let mut i: usize = from;
    while i < xs.len()
        invariant
            from <= i <= xs.len(),
            r@.len() == i - from,
            views(r@) == views(xs@).subrange(from as int, i as int),
        decreases xs.len() - i,
    {
        let v = xs[i].deep_copy();
        r.push(v);
        i = i + 1;
        proof {
            assert(views(r@) =~= views(xs@).subrange(from as int, i as int));
        }
    }
    r
}

/// The primitive that `s` names, if any.
pub fn lookup_primitives(s: &String) -> (r: Option<Primitive>)
    ensures
        r == primitive_of(s@),
{
    if name_is(s, "+") {
        Some(Primitive::Add)
    } else if name_is(s, "*") {
        Some(Primitive::Mul)
    } else if name_is(s, "-") {
        Some(Primitive::Sub)
    } else if name_is(s, "car") {
        Some(Primitive::Car)
    } else if name_is(s, "cdr") {
        Some(Primitive::Cdr)
    } else if name_is(s, "cons") {
        Some(Primitive::Cons)
    } else if name_is(s, "eq?") || name_is(s, "=") {
        Some(Primitive::Eq)
    } else {
        None
    }
}

/// The absolute value of `v`.
pub open spec fn abs(v: int) -> int {
    if v < 0 {
        -v
    } else {
        v
    }
}

/// A product of integers with no zero factor is at least as large, in
/// absolute value, as the product of any prefix.
pub proof fn lemma_product_grows(xs: Seq<SExp>, i: int)
    requires
        0 <= i <= xs.len(),
        all_ints(xs),
        forall|j: int| 0 <= j < xs.len() ==> int_value(#[trigger] xs[j]) != 0,
    ensures
        abs(product_of(xs.take(i))) <= abs(product_of(xs)),
    decreases xs.len(),
{
    if i == xs.len() {
        assert(xs.take(i) =~= xs);
    } else {
        let d = xs.drop_last();
        assert(d.take(i) =~= xs.take(i));
        lemma_product_grows(d, i);
        let p = product_of(d);
        let x = int_value(xs.last());
        assert(x != 0);
        assert(abs(p) <= abs(p * x)) by (nonlinear_arith)
            requires
                x != 0,
        ;
    }
}

/// A product of integers with a zero factor is zero.
pub proof fn lemma_product_zero(xs: Seq<SExp>, k: int)
    requires
        0 <= k < xs.len(),
        int_value(xs[k]) == 0,
    ensures
        product_of(xs) == 0,
    decreases xs.len(),
{
    if k == xs.len() - 1 {
        assert(product_of(xs) == product_of(xs.drop_last()) * 0);
    } else {
        lemma_product_zero(xs.drop_last(), k);
        assert(product_of(xs) == 0 * int_value(xs.last()));
    }
}

/// The exact sum of the integers `args[from..]` (no `i64` bound applies to
/// it), or `TypeError` when one of them is not an integer.
fn sum_ints(args: &Vec<LispVal>, from: usize) -> (r: Result<i128, SchemeError>)
    requires
        from <= args.len(),
    ensures
        ({
            let xs = views(args@).subrange(from as int, args@.len() as int);
            match r {
                Ok(s) => all_ints(xs) && s == sum_of(xs) && -(xs.len() * 0x8000_0000_0000_0000)
                    <= s <= xs.len() * 0x8000_0000_0000_0000,
                Err(e) => e == SchemeError::TypeError && !all_ints(xs),
            }
        }),
{
    let ghost all = views(args@);
    let mut acc: i128 = 0;
    let mut i: usize = from;
    proof {
        assert(all.subrange(from as int, from as int) =~= Seq::<SExp>::empty());
    }
    while i < args.len()
        invariant
            from <= i <= args.len(),
            all == views(args@),
            all_ints(all.subrange(from as int, i as int)),
            acc == sum_of(all.subrange(from as int, i as int)),
            -((i - from) * 0x8000_0000_0000_0000) <= acc <= (i - from) * 0x8000_0000_0000_0000,
        decreases args.len() - i,
    {
        let ghost pre = all.subrange(from as int, i as int);
        let ghost next = all.subrange(from as int, i + 1);
        proof {
            assert(next.drop_last() =~= pre);
            assert(next.last() == all[i as int]);
        }
        match args[i].to_integer() {
            None => {
                proof {
                    let xs = all.subrange(from as int, all.len() as int);
                    assert(xs[i - from] == all[i as int]);
                }
                return Err(SchemeError::TypeError);
            },
            Some(x) => {
                acc = acc + x as i128;
                i = i + 1;
                proof {
                    assert forall|j: int| 0 <= j < next.len() implies (#[trigger] next[j]) is Integer by {
                        if j < pre.len() {
                            assert(next[j] == pre[j]);
                        }
                    }
                }
            },
        }
    }
    proof {
        assert(all.subrange(from as int, i as int) =~= all.subrange(from as int, all.len() as int));
    }
    Ok(acc)
}

/// `+`: the exact sum of the operands, when it fits in `i64`.
fn add_list(args: &Vec<LispVal>) -> (r: Result<LispVal, SchemeError>)
    ensures
        result_view(r) == primitive_result(Primitive::Add, views(args@)),
{
    let s = sum_ints(args, 0);
    proof {
        assert(views(args@).subrange(0, args@.len() as int) =~= views(args@));
    }
    match s {
        Err(e) => Err(e),
        Ok(v) => {
            if i64::MIN as i128 <= v && v <= i64::MAX as i128 {
                Ok(LispVal::Integer(v as i64))
            } else {
                Err(SchemeError::Overflow)
            }
        },
    }
}

/// `-`: the first operand minus all later ones, exactly, when the result
/// fits in `i64`.
fn sub_impl(args: &Vec<LispVal>) -> (r: Result<LispVal, SchemeError>)
    ensures
        result_view(r) == primitive_result(Primitive::Sub, views(args@)),
{
    let ghost all = views(args@);
    if args.len() == 0 {
        return Err(SchemeError::ArityError);
    }
    let first = match args[0].to_integer() {
        Some(f) => f,
        None => {
            return Err(SchemeError::TypeError);
        },
    };
    let rest = sum_ints(args, 1);
    proof {
        assert(all.drop_first() =~= all.subrange(1, all.len() as int));
    }
    match rest {
        Err(e) => {
            proof {
                let xs = all.drop_first();
                let j = choose|j: int| 0 <= j < xs.len() && !(#[trigger] xs[j] is Integer);
                assert(all[j + 1] == xs[j]);
            }
            Err(e)
        },
        Ok(s) => {
            proof {
                assert forall|j: int| 0 <= j < all.len() implies (#[trigger] all[j]) is Integer by {
                    if j > 0 {
                        assert(all[j] == all.drop_first()[j - 1]);
                    }
                }
            }
            let d: i128 = first as i128 - s;
            if i64::MIN as i128 <= d && d <= i64::MAX as i128 {
                Ok(LispVal::Integer(d as i64))
            } else {
                Err(SchemeError::Overflow)
            }
        },
    }
}

/// `*`: the exact product of the operands, when it fits in `i64`.
fn mul_list(args: &Vec<LispVal>) -> (r: Result<LispVal, SchemeError>)
    ensures
        result_view(r) == primitive_result(Primitive::Mul, views(args@)),
{
    let ghost all = views(args@);
    // every operand must be an integer; a zero factor decides the product
    let mut zero_at: Option<usize> = None;
    let mut i: usize = 0;
    while i < args.len()
        invariant
            i <= args.len(),
            all == views(args@),
            forall|j: int| 0 <= j < i ==> (#[trigger] all[j]) is Integer,
            match zero_at {
                Some(k) => k < i && int_value(all[k as int]) == 0,
                None => forall|j: int| 0 <= j < i ==> int_value(#[trigger] all[j]) != 0,
            },
        decreases args.len() - i,
    {
        match args[i].to_integer() {
            None => {
                proof {
                    assert(!(all[i as int] is Integer));
                }
                return Err(SchemeError::TypeError);
            },
            Some(x) => {
                if x == 0 && zero_at.is_none() {
                    zero_at = Some(i);
                }
            },
        }
        i = i + 1;
    }
    if let Some(k) = zero_at {
        proof {
            lemma_product_zero(all, k as int);
        }
        return Ok(LispVal::Integer(0));
    }
    let mut acc: i128 = 1;
    let mut i: usize = 0;
    proof {
        assert(all.take(0) =~= Seq::<SExp>::empty());
    }
    while i < args.len()
        invariant
            i <= args.len(),
            all == views(args@),
            all_ints(all),
            forall|j: int| 0 <= j < all.len() ==> int_value(#[trigger] all[j]) != 0,
            acc == product_of(all.take(i as int)),
            -0x8000_0000_0000_0000 <= acc <= 0x8000_0000_0000_0000,
        decreases args.len() - i,
    {
        proof {
            assert(all[i as int] is Integer);
        }
        let x: i64 = match args[i].to_integer() {
            Some(x) => x,
            None => {
                return Err(SchemeError::TypeError);
            },
        };
        proof {
            assert(all.take(i + 1).drop_last() =~= all.take(i as int));
            assert(all.take(i + 1).last() == all[i as int]);
            assert(-0x4000_0000_0000_0000_0000_0000_0000_0000 <= acc * x
                <= 0x4000_0000_0000_0000_0000_0000_0000_0000) by (nonlinear_arith)
                requires
                    -0x8000_0000_0000_0000 <= acc <= 0x8000_0000_0000_0000,
                    -0x8000_0000_0000_0000 <= x <= 0x7fff_ffff_ffff_ffff,
            ;
        }
        let p: i128 = acc * (x as i128);
        i = i + 1;
        if p > 0x8000_0000_0000_0000 || p < -0x8000_0000_0000_0000 {
            proof {
                lemma_product_grows(all, i as int);
            }
            return Err(SchemeError::Overflow);
        }
        acc = p;
    }
    proof {
        assert(all.take(i as int) =~= all);
    }
    if i64::MIN as i128 <= acc && acc <= i64::MAX as i128 {
        Ok(LispVal::Integer(acc as i64))
    } else {
        Err(SchemeError::Overflow)
    }
}

/// `=` and `eq?`: whether the operands are integers that all equal the first;
/// every operand must be an integer.
fn eq_lisp(args: &Vec<LispVal>) -> (r: Result<LispVal, SchemeError>)
    ensures
        result_view(r) == primitive_result(Primitive::Eq, views(args@)),
{
    if args.len() == 0 {
        return Err(SchemeError::ArityError);
    }
    let ghost all = views(args@);
    let first = match args[0].to_integer() {
        Some(f) => f,
        None => {
            proof {
                assert(!(all[0] is Integer));
            }
            return Err(SchemeError::TypeError);
        },
    };
    let mut equal = true;
    let mut i: usize = 1;
    while i < args.len()
        invariant
            1 <= i <= args.len(),
            all == views(args@),
            all[0] == SExp::Integer(first),
            forall|k: int| 0 <= k < i ==> (#[trigger] all[k]) is Integer,
            equal == (forall|k: int| 0 <= k < i ==> #[trigger] all[k] == all[0]),
        decreases args.len() - i,
    {
        match args[i].to_integer() {
            None => {
                proof {
                    assert(!(all[i as int] is Integer));
                }
                return Err(SchemeError::TypeError);
            },
            Some(x) => {
                if x != first {
                    equal = false;
                }
            },
        }
        i = i + 1;
    }
    Ok(LispVal::Bool(equal))
}

/// `car`: the first element of the single list operand.
fn car_list(args: &Vec<LispVal>) -> (r: Result<LispVal, SchemeError>)
    ensures
        result_view(r) == primitive_result(Primitive::Car, views(args@)),
{
    if args.len() != 1 {
        return Err(SchemeError::TypeError);
    }
    match &args[0] {
        LispVal::List(xs) => {
            proof {
                lemma_sexps_of(xs@);
            }
            if xs.len() == 0 {
                Err(SchemeError::TypeError)
            } else {
                Ok(xs[0].deep_copy())
            }
        },
        _ => Err(SchemeError::TypeError),
    }
}

/// `cdr`: all but the first element of the single list operand.
fn cdr_list(args: &Vec<LispVal>) -> (r: Result<LispVal, SchemeError>)
    ensures
        result_view(r) == primitive_result(Primitive::Cdr, views(args@)),
{
    if args.len() != 1 {
        return Err(SchemeError::TypeError);
    }
    match &args[0] {
        LispVal::List(xs) => {
            proof {
                lemma_sexps_of(xs@);
            }
            if xs.len() == 0 {
                Err(SchemeError::TypeError)
            } else {
                let rest = copy_from(xs, 1);
                proof {
                    lemma_sexps_of(rest@);
                    assert(views(xs@).drop_first() =~= views(xs@).subrange(1, xs@.len() as int));
                }
                Ok(LispVal::List(rest))
            }
        },
        _ => Err(SchemeError::TypeError),
    }
}

/// `cons`: the first operand put in front of the list that is the second.
fn cons_list(args: &Vec<LispVal>) -> (r: Result<LispVal, SchemeError>)
    ensures
        result_view(r) == primitive_result(Primitive::Cons, views(args@)),
{
    if args.len() < 2 {
        return Err(SchemeError::ArityError);
    }
    match &args[1] {
        LispVal::List(xs) => {
            let mut ys = copy_all(xs);
            let head = args[0].deep_copy();
            let ghost old_ys = ys@;
            ys.insert(0, head);
            proof {
                lemma_sexps_of(xs@);
                lemma_sexps_of(ys@);
                assert(views(ys@) =~= seq![args@[0]@] + views(old_ys));
            }
            Ok(LispVal::List(ys))
        },
        _ => Err(SchemeError::TypeError),
    }
}

/// What primitive `p` returns on the evaluated operands `args`.
pub fn apply_primitive(p: Primitive, args: &Vec<LispVal>) -> (r: Result<LispVal, SchemeError>)
    ensures
        result_view(r) == primitive_result(p, views(args@)),
{
    match p {
        Primitive::Add => add_list(args),
        Primitive::Mul => mul_list(args),
        Primitive::Sub => sub_impl(args),
        Primitive::Car => car_list(args),
        Primitive::Cdr => cdr_list(args),
        Primitive::Cons => cons_list(args),
        Primitive::Eq => eq_lisp(args),
    }
}

} // verus!

verus! {

/// An evaluator that owns its environment; definitions persist from one
/// `interpret` call to the next.
pub struct Interpreter {
    env: Environment,
    depth_limit: u64,
}

impl View for Interpreter {
    type V = EnvView;

    closed spec fn view(&self) -> EnvView {
        self.env@
    }
}

impl Interpreter {
    /// The environment always keeps its root frame.
    pub closed spec fn wf(&self) -> bool {
        self.env@.len() >= 1
    }

    /// How deeply one evaluation may nest.
    pub closed spec fn depth_limit(&self) -> nat {
        self.depth_limit as nat
    }

    /// An interpreter whose environment is one empty frame, with the default
    /// depth limit `MAX_EVAL_DEPTH`.
    pub fn new() -> (r: Interpreter)
        ensures
            r.wf(),
            r@ == seq![Seq::<(Seq<char>, SExp)>::empty()],
            r.depth_limit() == MAX_EVAL_DEPTH,
    {
        Interpreter { env: Environment::new(), depth_limit: MAX_EVAL_DEPTH }
    }

    /// An interpreter whose environment is one empty frame, and whose
    /// evaluations may nest at most `limit` deep.
    pub fn with_depth_limit(limit: u64) -> (r: Interpreter)
        ensures
            r.wf(),
            r@ == seq![Seq::<(Seq<char>, SExp)>::empty()],
            r.depth_limit() == limit,
    {
        Interpreter { env: Environment::new(), depth_limit: limit }
    }

    /// The current environment.
    pub fn env(&self) -> (r: &Environment)
        ensures
            r@ == self@,
    {
        &self.env
    }

    /// Parses one expression from `s` and evaluates it; the environment keeps
    /// whatever the evaluation defined.
    pub fn interpret(&mut self, s: &str) -> (r: Result<LispVal, SchemeError>)
        requires
            old(self).wf(),
        ensures
            final(self).wf(),
            final(self).depth_limit() == old(self).depth_limit(),
            (final(self)@, result_view(r)) == interpret_source(
                old(self)@,
                s@,
                old(self).depth_limit(),
            ),
    {
        let mut parser = Parser::new(s);
        match parser.parse() {
            Err(e) => Err(e),
            Ok(ast) => {
                let limit = self.depth_limit;
                self.eval(&ast, limit)
            },
        }
    }

    fn eval(&mut self, v: &LispVal, fuel: u64) -> (r: Result<LispVal, SchemeError>)
        requires
            old(self).env@.len() >= 1,
        ensures
            final(self).env@.len() == old(self).env@.len(),
            final(self).depth_limit == old(self).depth_limit,
            (final(self).env@, result_view(r)) == evaluate(old(self).env@, v@, fuel as nat),
        decreases fuel, 0int, 0int,
    {
        if fuel == 0 {
            return Err(SchemeError::ResourceExhausted);
        }
        match v {
            LispVal::Atom(s) => self.eval_atom(s),
            LispVal::List(items) => {
                proof {
                    lemma_sexps_of(items@);
                }
                self.eval_list(items, fuel - 1)
            },
            LispVal::Integer(i) => Ok(LispVal::Integer(*i)),
            LispVal::Bool(b) => Ok(LispVal::Bool(*b)),
            LispVal::Function { .. } => Ok(v.deep_copy()),
        }
    }

    fn eval_atom(&self, s: &String) -> (r: Result<LispVal, SchemeError>)
        ensures
            result_view(r) == match lookup_env(self.env@, s@) {
                Some(x) => Ok(x),
                None => Err(SchemeError::UnboundName),
            },
    {
        match self.env.lookup(s.as_str()) {
            Some(v) => Ok(v.deep_copy()),
            None => Err(SchemeError::UnboundName),
        }
    }

    fn eval_list(&mut self, items: &Vec<LispVal>, fuel: u64) -> (r: Result<LispVal, SchemeError>)
        requires
            old(self).env@.len() >= 1,
        ensures
            final(self).env@.len() == old(self).env@.len(),
            final(self).depth_limit == old(self).depth_limit,
            (final(self).env@, result_view(r)) == evaluate_list(
                old(self).env@,
                views(items@),
                fuel as nat,
            ),
        decreases fuel, 4int, 0int,
    {
        if items.len() == 0 {
            proof {
                assert(views(items@) =~= Seq::<SExp>::empty());
            }
            return Ok(LispVal::List(Vec::new()));
        }
        match &items[0] {
            LispVal::Atom(s) => {
                if name_is(s, "quote") {
                    if items.len() < 2 {
                        Err(SchemeError::ArityError)
                    } else {
                        Ok(items[1].deep_copy())
                    }
                } else if name_is(s, "define") {
                    self.define_value(items, fuel)
                } else if name_is(s, "if") {
                    self.eval_if(items, fuel)
                } else {
                    self.apply(s, items, fuel)
                }
            },
            _ => Err(SchemeError::TypeError),
        }
    }

    fn eval_if(&mut self, items: &Vec<LispVal>, fuel: u64) -> (r: Result<LispVal, SchemeError>)
        requires
            old(self).env@.len() >= 1,
            items.len() >= 1,
        ensures
            final(self).env@.len() == old(self).env@.len(),
            final(self).depth_limit == old(self).depth_limit,
            (final(self).env@, result_view(r)) == evaluate_if(
                old(self).env@,
                views(items@).drop_first(),
                fuel as nat,
            ),
        decreases fuel, 2int, 0int,
    {
        if items.len() < 2 {
            return Err(SchemeError::ArityError);
        }
        let cond = self.eval(&items[1], fuel);
        match cond {
            Err(e) => Err(e),
            Ok(c) => {
                if items.len() == 3 {
                    self.eval_if_only(c, items, fuel)
                } else if items.len() == 4 {
                    self.eval_if_else(c, items, fuel)
                } else {
                    Err(SchemeError::ArityError)
                }
            },
        }
    }

    fn eval_if_only(&mut self, cond: LispVal, items: &Vec<LispVal>, fuel: u64) -> (r: Result<
        LispVal,
        SchemeError,
    >)
        requires
            old(self).env@.len() >= 1,
            items.len() == 3,
        ensures
            final(self).env@.len() == old(self).env@.len(),
            final(self).depth_limit == old(self).depth_limit,
            (final(self).env@, result_view(r)) == if cond@ == SExp::Bool(false) {
                (old(self).env@, Err(SchemeError::UnspecifiedReturn))
            } else {
                evaluate(old(self).env@, items@[2]@, fuel as nat)
            },
        decreases fuel, 1int, 0int,
    {
        match cond {
            LispVal::Bool(false) => Err(SchemeError::UnspecifiedReturn),
            _ => self.eval(&items[2], fuel),
        }
    }

    fn eval_if_else(&mut self, cond: LispVal, items: &Vec<LispVal>, fuel: u64) -> (r: Result<
        LispVal,
        SchemeError,
    >)
        requires
            old(self).env@.len() >= 1,
            items.len() == 4,
        ensures
            final(self).env@.len() == old(self).env@.len(),
            final(self).depth_limit == old(self).depth_limit,
            (final(self).env@, result_view(r)) == if cond@ == SExp::Bool(false) {
                evaluate(old(self).env@, items@[3]@, fuel as nat)
            } else {
                evaluate(old(self).env@, items@[2]@, fuel as nat)
            },
        decreases fuel, 1int, 0int,
    {
        match cond {
            LispVal::Bool(false) => self.eval(&items[3], fuel),
            _ => self.eval(&items[2], fuel),
        }
    }

    fn define_value(&mut self, items: &Vec<LispVal>, fuel: u64) -> (r: Result<LispVal, SchemeError>)
        requires
            old(self).env@.len() >= 1,
            items.len() >= 1,
        ensures
            final(self).env@.len() == old(self).env@.len(),
            final(self).depth_limit == old(self).depth_limit,
            (final(self).env@, result_view(r)) == evaluate_define(
                old(self).env@,
                views(items@).drop_first(),
                fuel as nat,
            ),
        decreases fuel, 2int, 0int,
    {
        if items.len() < 2 {
            return Err(SchemeError::ArityError);
        }
        match &items[1] {
            LispVal::Atom(name) => {
                if items.len() < 3 {
                    return Err(SchemeError::ArityError);
                }
                match self.eval(&items[2], fuel) {
                    Ok(val) => {
                        self.env.new_binding(name.clone(), val.deep_copy());
                        Ok(val)
                    },
                    Err(e) => Err(e),
                }
            },
            LispVal::List(sig) => {
                proof {
                    lemma_sexps_of(sig@);
                    assert(views(items@).drop_first().drop_first() =~= views(items@).subrange(
                        2,
                        items@.len() as int,
                    ));
                }
                self.define_function(sig, items)
            },
            _ => Err(SchemeError::TypeError),
        }
    }

    fn define_function(&mut self, sig: &Vec<LispVal>, items: &Vec<LispVal>) -> (r: Result<
        LispVal,
        SchemeError,
    >)
        requires
            old(self).env@.len() >= 1,
            items.len() >= 2,
        ensures
            final(self).env@.len() == old(self).env@.len(),
            final(self).depth_limit == old(self).depth_limit,
            (final(self).env@, result_view(r)) == evaluate_define_function(
                old(self).env@,
                views(sig@),
                views(items@).subrange(2, items@.len() as int),
            ),
    {
        let ghost sv = views(sig@);
        if sig.len() == 0 {
            return Err(SchemeError::TypeError);
        }
        let name = match &sig[0] {
            LispVal::Atom(n) => n.clone(),
            _ => {
                return Err(SchemeError::TypeError);
            },
        };
        let mut params: Vec<String> = Vec::new();
        let mut j: usize = 1;
        while j < sig.len()
            invariant
                1 <= j <= sig.len(),
                sv == views(sig@),
                params@.len() == j - 1,
                forall|k: int| 1 <= k < j ==> (#[trigger] sv[k]) is Atom,
                forall|k: int| 0 <= k < j - 1 ==> (#[trigger] params@[k])@ == sv[k + 1]->Atom_0,
            decreases sig.len() - j,
        {
            match &sig[j] {
                LispVal::Atom(p) => {
                    params.push(p.clone());
                },
                _ => {
                    proof {
                        assert(!(sv[j as int] is Atom));
                    }
                    return Err(SchemeError::TypeError);
                },
            }
            j = j + 1;
        }
        let body = copy_from(items, 2);
        let val = LispVal::Function { params, body };
        proof {
            lemma_sexps_of(body@);
            assert(crate::parser::names_of(params@) =~= sv.drop_first().map_values(
                |p: SExp| p->Atom_0,
            ));
            assert(val@ == function_value(sv, views(items@).subrange(2, items@.len() as int)));
        }
        self.env.new_binding(name, val.deep_copy());
        Ok(val)
    }

    fn apply(&mut self, operator: &String, items: &Vec<LispVal>, fuel: u64) -> (r: Result<
        LispVal,
        SchemeError,
    >)
        requires
            old(self).env@.len() >= 1,
            items.len() >= 1,
        ensures
            final(self).env@.len() == old(self).env@.len(),
            final(self).depth_limit == old(self).depth_limit,
            (final(self).env@, result_view(r)) == evaluate_apply(
                old(self).env@,
                operator@,
                views(items@).drop_first(),
                fuel as nat,
            ),
        decreases fuel, 3int, 0int,
    {
        let ghost env0 = self.env@;
        let ghost ops = views(items@).drop_first();
        let mut vals: Vec<LispVal> = Vec::new();
        let mut i: usize = 1;
        proof {
            assert(ops.subrange(0, ops.len() as int) =~= ops);
            assert(views(vals@) + Seq::<SExp>::empty() =~= Seq::<SExp>::empty());
            assert(Seq::<SExp>::empty() + Seq::<SExp>::empty() =~= Seq::<SExp>::empty());
            let r = evaluate_args(self.env@, ops, fuel as nat);
            assert(prepend(views(vals@), r) == r) by {
                match r.1 {
                    Ok(vs) => {
                        assert(views(vals@) + vs =~= vs);
                    },
                    Err(_) => {},
                }
            }
        }
        while i < items.len()
            invariant
                1 <= i <= items.len(),
                self.depth_limit == old(self).depth_limit,
                env0 == old(self).env@,
                env0.len() >= 1,
                self.env@.len() == env0.len(),
                ops == views(items@).drop_first(),
                evaluate_args(env0, ops, fuel as nat) == prepend(
                    views(vals@),
                    evaluate_args(self.env@, ops.subrange(i - 1, ops.len() as int), fuel as nat),
                ),
            decreases items.len() - i,
        {
            let ghost before = self.env@;
            let ghost rest = ops.subrange(i - 1, ops.len() as int);
            let ghost old_vals = views(vals@);
            proof {
                assert(rest[0] == items@[i as int]@);
                assert(rest.drop_first() =~= ops.subrange(i as int, ops.len() as int));
            }
            match self.eval(&items[i], fuel) {
                Ok(v) => {
                    vals.push(v);
                    proof {
                        assert(views(vals@) =~= old_vals.push(v@));
                        let tail = evaluate_args(self.env@, rest.drop_first(), fuel as nat);
                        match tail.1 {
                            Ok(vs) => {
                                assert(old_vals + (seq![v@] + vs) =~= views(vals@) + vs);
                            },
                            Err(_) => {},
                        }
                    }
                },
                Err(e) => {
                    return Err(e);
                },
            }
            i = i + 1;
        }
        proof {
            assert(ops.subrange(ops.len() as int, ops.len() as int) =~= Seq::<SExp>::empty());
            assert(views(vals@) + Seq::<SExp>::empty() =~= views(vals@));
        }
        match lookup_primitives(operator) {
            Some(p) => apply_primitive(p, &vals),
            None => self.apply_func(operator, &vals, fuel),
        }
    }

    fn apply_func(&mut self, operator: &String, args: &Vec<LispVal>, fuel: u64) -> (r: Result<
        LispVal,
        SchemeError,
    >)
        requires
            old(self).env@.len() >= 1,
        ensures
            final(self).env@.len() == old(self).env@.len(),
            final(self).depth_limit == old(self).depth_limit,
            (final(self).env@, result_view(r)) == evaluate_call(
                old(self).env@,
                operator@,
                views(args@),
                fuel as nat,
            ),
        decreases fuel, 1int, 0int,
    {
        let ghost env0 = self.env@;
        let callee = match self.env.lookup(operator.as_str()) {
            None => {
                return Err(SchemeError::UnboundName);
            },
            Some(v) => v.deep_copy(),
        };
        match callee {
            LispVal::Function { params, body } => {
                proof {
                    lemma_sexps_of(body@);
                }
                if params.len() != args.len() || body.len() == 0 {
                    return Err(SchemeError::ArityError);
                }
                let ghost ps = crate::parser::names_of(params@);
                let ghost vs = views(args@);
                self.env.new_frame();
                let mut i: usize = 0;
                proof {
                    assert(ps.subrange(0, ps.len() as int) =~= ps);
                    assert(vs.subrange(0, vs.len() as int) =~= vs);
                }
                while i < params.len()
                    invariant
                        i <= params.len(),
                        self.depth_limit == old(self).depth_limit,
                        params.len() == args.len(),
                        ps == crate::parser::names_of(params@),
                        vs == views(args@),
                        self.env@.len() == env0.len() + 1,
                        bind_params(env0.push(Seq::empty()), ps, vs) == bind_params(
                            self.env@,
                            ps.subrange(i as int, ps.len() as int),
                            vs.subrange(i as int, vs.len() as int),
                        ),
                    decreases params.len() - i,
                {
                    proof {
                        assert(ps.subrange(i as int, ps.len() as int).drop_first() =~= ps.subrange(
                            i + 1,
                            ps.len() as int,
                        ));
                        assert(vs.subrange(i as int, vs.len() as int).drop_first() =~= vs.subrange(
                            i + 1,
                            vs.len() as int,
                        ));
                    }
                    self.env.new_binding(params[i].clone(), args[i].deep_copy());
                    i = i + 1;
                }
                let result = self.eval(&body[0], fuel);
                self.env.pop_frame();
                result
            },
            _ => Err(SchemeError::TypeError),
        }
    }
}

} // verus!
