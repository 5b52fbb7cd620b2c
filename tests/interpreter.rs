use scheme::error::SchemeError;
use scheme::interpreter::Interpreter;
use scheme::parser::LispVal;

#[test]
fn test_eval_integer() {
    let interpreter = Interpreter::new().interpret("4");
    if let LispVal::Integer(4) = interpreter.unwrap() {
    } else {
        unreachable!();
    }
}

#[test]
fn test_eval_add() {
    let interpreter = Interpreter::new().interpret("(+ 1 2 3)");
    if let LispVal::Integer(6) = interpreter.unwrap() {
    } else {
        unreachable!();
    }
}

#[test]
fn test_eval_mul() {
    let interpreter = Interpreter::new().interpret("(* 4 2 3)");
    if let LispVal::Integer(i) = interpreter.unwrap() {
        assert_eq!(i, 24);
    } else {
        unreachable!();
    }
}

#[test]
fn test_eval_sub() {
    let interpreter = Interpreter::new().interpret("(- 4 2 3)");
    if let LispVal::Integer(i) = interpreter.unwrap() {
        assert_eq!(i, -1);
    } else {
        unreachable!();
    }
}

#[test]
fn test_eval_car() {
    let interpreter = Interpreter::new().interpret("(car '(1 2 3))");
    if let LispVal::Integer(i) = interpreter.unwrap() {
        assert_eq!(i, 1);
    } else {
        unreachable!();
    }
}

#[test]
fn test_eval_cdr() {
    let interpreter = Interpreter::new().interpret("(cdr '(1 2 3))");
    if let LispVal::List(v) = interpreter.unwrap() {
        assert_eq!(v, vec![LispVal::Integer(2), LispVal::Integer(3)]);
    } else {
        unreachable!();
    }
}

#[test]
fn test_eval_cons() {
    let interpreter = Interpreter::new().interpret("(cons 1 '(2 3))");
    if let LispVal::List(v) = interpreter.unwrap() {
        assert_eq!(
            v,
            vec![
                LispVal::Integer(1),
                LispVal::Integer(2),
                LispVal::Integer(3)
            ]
        );
    } else {
        unreachable!();
    }
}

#[test]
fn test_eval_define() {
    let interpreter = Interpreter::new().interpret("(define x 1)");
    if let LispVal::Integer(i) = interpreter.unwrap() {
        assert_eq!(i, 1);
    } else {
        unreachable!();
    }
}

#[test]
fn test_define_env_bound() {
    let mut interpreter = Interpreter::new();
    interpreter.interpret("(define x 1)").unwrap();
    assert_eq!(
        format!("{:?}", interpreter.env()),
        "Environment([EnvFrame([(\"x\", Integer(1))])])"
    )
}

#[test]
fn test_define_lookup() {
    let mut interpreter = Interpreter::new();
    interpreter.interpret("(define x 1)").unwrap();
    assert_eq!(interpreter.env().lookup("x"), Some(&LispVal::Integer(1)))
}

#[test]
fn test_define_reference() {
    let mut interpreter = Interpreter::new();
    interpreter.interpret("(define x 1)").unwrap();
    assert_eq!(interpreter.interpret("x"), Ok(LispVal::Integer(1)))
}

#[test]
fn test_function_define() {
    let mut interpreter = Interpreter::new();
    interpreter.interpret("(define (add1 x) (+ x 1))").unwrap();
    assert_eq!(
        format!("{:?}", interpreter.env()),
        "Environment([EnvFrame([(\"add1\", Function { params: [\"x\"], body: [List([Atom(\"+\"), Atom(\"x\"), Integer(1)])] })])])"
    )
}

#[test]
fn test_function() {
    let mut interpreter = Interpreter::new();
    interpreter.interpret("(define (add1 x) (+ x 1))").unwrap();
    assert_eq!(interpreter.interpret("(add1 1)"), Ok(LispVal::Integer(2)))
}

#[test]
fn test_function_composition() {
    let mut interpreter = Interpreter::new();
    interpreter.interpret("(define (add1 x) (+ x 1))").unwrap();
    interpreter
        .interpret("(define (add2 x) (+ (add1 x) 1))")
        .unwrap();
    assert_eq!(interpreter.interpret("(add2 1)"), Ok(LispVal::Integer(3)))
}

#[test]
fn test_if() {
    let mut interpreter = Interpreter::new();
    assert_eq!(
        interpreter.interpret("(if #t 1 2)"),
        Ok(LispVal::Integer(1))
    )
}

#[test]
fn test_if_else() {
    let mut interpreter = Interpreter::new();
    assert_eq!(
        interpreter.interpret("(if #f 1 2)"),
        Ok(LispVal::Integer(2))
    )
}

#[test]
fn test_eq() {
    let mut interpreter = Interpreter::new();
    assert_eq!(interpreter.interpret("(= 1 1)"), Ok(LispVal::Bool(true)))
}

#[test]
fn test_many_eq() {
    let mut interpreter = Interpreter::new();
    assert_eq!(
        interpreter.interpret("(= 1 1 1 1)"),
        Ok(LispVal::Bool(true))
    )
}

#[test]
fn test_many_eq_f() {
    let mut interpreter = Interpreter::new();
    assert_eq!(
        interpreter.interpret("(= 1 1 1 2)"),
        Ok(LispVal::Bool(false))
    )
}

#[test]
fn test_eq_with_eval() {
    let mut interpreter = Interpreter::new();
    assert_eq!(
        interpreter.interpret("(= (+ 1 1) 2)"),
        Ok(LispVal::Bool(true))
    )
}

#[test]
fn test_fib_func() {
    let mut interpreter = Interpreter::new();
    interpreter
        .interpret(
            "(define (fib n) (if (= n 0) 0 (if (= n 1) 1 (+ (fib (- n 1)) (fib (- n 2))))))",
        )
        .unwrap();
    assert_eq!(interpreter.interpret("(fib 0)"), Ok(LispVal::Integer(0)));
    assert_eq!(interpreter.interpret("(fib 1)"), Ok(LispVal::Integer(1)));
    assert_eq!(interpreter.interpret("(fib 2)"), Ok(LispVal::Integer(1)));
    assert_eq!(interpreter.interpret("(fib 3)"), Ok(LispVal::Integer(2)));
    assert_eq!(interpreter.interpret("(fib 4)"), Ok(LispVal::Integer(3)));
    assert_eq!(interpreter.interpret("(fib 5)"), Ok(LispVal::Integer(5)));
    assert_eq!(interpreter.interpret("(fib 6)"), Ok(LispVal::Integer(8)));
    assert_eq!(interpreter.interpret("(fib 7)"), Ok(LispVal::Integer(13)));
    assert_eq!(interpreter.interpret("(fib 8)"), Ok(LispVal::Integer(21)));
    assert_eq!(interpreter.interpret("(fib 9)"), Ok(LispVal::Integer(34)));
    assert_eq!(interpreter.interpret("(fib 10)"), Ok(LispVal::Integer(55)));
}

#[test]
fn if_without_else_on_false_is_unspecified_return() {
    let mut interpreter = Interpreter::new();
    assert_eq!(
        interpreter.interpret("(if #f 1)"),
        Err(SchemeError::UnspecifiedReturn)
    );
    assert_eq!(interpreter.interpret("(if #t 1)"), Ok(LispVal::Integer(1)));
}

#[test]
fn integers_are_truthy_in_if() {
    let mut interpreter = Interpreter::new();
    assert_eq!(interpreter.interpret("(if 0 1 2)"), Ok(LispVal::Integer(1)));
}

#[test]
fn if_with_wrong_operand_count_is_arity_error() {
    let mut interpreter = Interpreter::new();
    assert_eq!(interpreter.interpret("(if)"), Err(SchemeError::ArityError));
    assert_eq!(interpreter.interpret("(if #t)"), Err(SchemeError::ArityError));
    assert_eq!(interpreter.interpret("(if #t 1 2 3)"), Err(SchemeError::ArityError));
}

#[test]
fn unbound_name_is_an_error() {
    let mut interpreter = Interpreter::new();
    assert_eq!(interpreter.interpret("y"), Err(SchemeError::UnboundName));
    assert_eq!(interpreter.interpret("(f 1)"), Err(SchemeError::UnboundName));
}

#[test]
fn user_function_arity_mismatch() {
    let mut interpreter = Interpreter::new();
    interpreter.interpret("(define (add1 x) (+ x 1))").unwrap();
    assert_eq!(interpreter.interpret("(add1 1 2)"), Err(SchemeError::ArityError));
    assert_eq!(interpreter.interpret("(add1)"), Err(SchemeError::ArityError));
}

#[test]
fn calling_a_non_function_is_a_type_error() {
    let mut interpreter = Interpreter::new();
    interpreter.interpret("(define x 1)").unwrap();
    assert_eq!(interpreter.interpret("(x 2)"), Err(SchemeError::TypeError));
    assert_eq!(interpreter.interpret("(1 2)"), Err(SchemeError::TypeError));
}

#[test]
fn primitive_type_errors() {
    let mut interpreter = Interpreter::new();
    assert_eq!(interpreter.interpret("(+ 1 #t)"), Err(SchemeError::TypeError));
    assert_eq!(interpreter.interpret("(car 1)"), Err(SchemeError::TypeError));
    assert_eq!(interpreter.interpret("(car '())"), Err(SchemeError::TypeError));
    assert_eq!(interpreter.interpret("(cdr '())"), Err(SchemeError::TypeError));
    assert_eq!(interpreter.interpret("(car '(1) '(2))"), Err(SchemeError::TypeError));
    assert_eq!(interpreter.interpret("(cons 1 2)"), Err(SchemeError::TypeError));
    assert_eq!(interpreter.interpret("(= 1 #t)"), Err(SchemeError::TypeError));
    assert_eq!(interpreter.interpret("(= #t 1)"), Err(SchemeError::TypeError));
}

#[test]
fn primitive_arity_errors() {
    let mut interpreter = Interpreter::new();
    assert_eq!(interpreter.interpret("(-)"), Err(SchemeError::ArityError));
    assert_eq!(interpreter.interpret("(=)"), Err(SchemeError::ArityError));
    assert_eq!(interpreter.interpret("(cons 1)"), Err(SchemeError::ArityError));
    assert_eq!(interpreter.interpret("(quote)"), Err(SchemeError::ArityError));
    assert_eq!(interpreter.interpret("(define x)"), Err(SchemeError::ArityError));
}

#[test]
fn fold_identities() {
    let mut interpreter = Interpreter::new();
    assert_eq!(interpreter.interpret("(+)"), Ok(LispVal::Integer(0)));
    assert_eq!(interpreter.interpret("(*)"), Ok(LispVal::Integer(1)));
    assert_eq!(interpreter.interpret("(- 5)"), Ok(LispVal::Integer(5)));
}

#[test]
fn arithmetic_overflow_is_an_error() {
    let mut interpreter = Interpreter::new();
    assert_eq!(
        interpreter.interpret("(+ 9223372036854775807 1)"),
        Err(SchemeError::Overflow)
    );
    assert_eq!(
        interpreter.interpret("(* 4294967296 4294967296)"),
        Err(SchemeError::Overflow)
    );
    assert_eq!(
        interpreter.interpret("(- 0 9223372036854775807 2)"),
        Err(SchemeError::Overflow)
    );
}

#[test]
fn arithmetic_is_exact_when_the_result_fits() {
    let mut interpreter = Interpreter::new();
    assert_eq!(
        interpreter.interpret("(+ 9223372036854775807 1 (- 0 1))"),
        Ok(LispVal::Integer(i64::MAX))
    );
    assert_eq!(
        interpreter.interpret("(- (- 0 2) 9223372036854775807 (- 0 9223372036854775807))"),
        Ok(LispVal::Integer(-2))
    );
    assert_eq!(
        interpreter.interpret("(* 4611686018427387904 4 0)"),
        Ok(LispVal::Integer(0))
    );
    assert_eq!(
        interpreter.interpret("(* 4611686018427387904 2 (- 0 1))"),
        Ok(LispVal::Integer(i64::MIN))
    );
    assert_eq!(
        interpreter.interpret("(* 4611686018427387904 2 1)"),
        Err(SchemeError::Overflow)
    );
}

#[test]
fn arithmetic_type_errors_come_before_overflow() {
    let mut interpreter = Interpreter::new();
    assert_eq!(
        interpreter.interpret("(+ 9223372036854775807 1 #t)"),
        Err(SchemeError::TypeError)
    );
    assert_eq!(
        interpreter.interpret("(* 4294967296 4294967296 #f)"),
        Err(SchemeError::TypeError)
    );
    assert_eq!(interpreter.interpret("(* 0 #t)"), Err(SchemeError::TypeError));
}

#[test]
fn equality_needs_integers_everywhere() {
    let mut interpreter = Interpreter::new();
    assert_eq!(interpreter.interpret("(= 1 2 #t)"), Err(SchemeError::TypeError));
    assert_eq!(interpreter.interpret("(= 1 1 '(1))"), Err(SchemeError::TypeError));
    assert_eq!(interpreter.interpret("(= 1 2 3)"), Ok(LispVal::Bool(false)));
    assert_eq!(interpreter.interpret("(eq? 3 3)"), Ok(LispVal::Bool(true)));
    assert_eq!(interpreter.interpret("(= 7)"), Ok(LispVal::Bool(true)));
}

#[test]
fn subtraction_needs_integers_everywhere() {
    let mut interpreter = Interpreter::new();
    assert_eq!(interpreter.interpret("(- #t)"), Err(SchemeError::TypeError));
    assert_eq!(interpreter.interpret("(- '(1 2))"), Err(SchemeError::TypeError));
    assert_eq!(interpreter.interpret("(- #t 1)"), Err(SchemeError::TypeError));
    assert_eq!(interpreter.interpret("(- 1 #f)"), Err(SchemeError::TypeError));
}

#[test]
fn quote_returns_unevaluated() {
    let mut interpreter = Interpreter::new();
    assert_eq!(
        interpreter.interpret("(quote y)"),
        Ok(LispVal::Atom("y".to_string()))
    );
    assert_eq!(interpreter.interpret("'()"), Ok(LispVal::List(vec![])));
    assert_eq!(interpreter.interpret("()"), Ok(LispVal::List(vec![])));
}

#[test]
fn define_binds_in_current_frame_and_returns_value() {
    let mut interpreter = Interpreter::new();
    assert_eq!(interpreter.interpret("(define y (+ 2 3))"), Ok(LispVal::Integer(5)));
    assert_eq!(interpreter.interpret("(define y 6)"), Ok(LispVal::Integer(6)));
    assert_eq!(interpreter.interpret("y"), Ok(LispVal::Integer(6)));
}

#[test]
fn malformed_function_definitions() {
    let mut interpreter = Interpreter::new();
    assert_eq!(interpreter.interpret("(define (1 x) x)"), Err(SchemeError::TypeError));
    assert_eq!(interpreter.interpret("(define (f 1) 1)"), Err(SchemeError::TypeError));
    assert_eq!(interpreter.interpret("(define () 1)"), Err(SchemeError::TypeError));
    assert_eq!(interpreter.interpret("(define 3 1)"), Err(SchemeError::TypeError));
}

#[test]
fn function_with_empty_body_cannot_be_applied() {
    let mut interpreter = Interpreter::new();
    interpreter.interpret("(define (f))").unwrap();
    assert_eq!(interpreter.interpret("(f)"), Err(SchemeError::ArityError));
}

#[test]
fn call_frame_is_removed_after_a_call() {
    let mut interpreter = Interpreter::new();
    interpreter.interpret("(define (g x) x)").unwrap();
    assert_eq!(interpreter.interpret("(g 4)"), Ok(LispVal::Integer(4)));
    assert_eq!(interpreter.interpret("x"), Err(SchemeError::UnboundName));
}

#[test]
fn parse_errors_reach_the_caller() {
    let mut interpreter = Interpreter::new();
    assert_eq!(interpreter.interpret(")"), Err(SchemeError::ParseError));
    assert_eq!(interpreter.interpret("1.5"), Err(SchemeError::Unsupported));
    assert_eq!(interpreter.interpret("12x"), Err(SchemeError::LexError));
}

#[test]
fn recursion_deeper_than_a_few_hundred_levels() {
    let mut interpreter = Interpreter::new();
    interpreter
        .interpret("(define (down n) (if (= n 0) 0 (down (- n 1))))")
        .unwrap();
    assert_eq!(interpreter.interpret("(down 1000)"), Ok(LispVal::Integer(0)));
}

#[test]
fn unbounded_recursion_exhausts_resources_at_a_chosen_limit() {
    let mut interpreter = Interpreter::with_depth_limit(300);
    interpreter.interpret("(define (spin n) (spin n))").unwrap();
    assert_eq!(
        interpreter.interpret("(spin 1)"),
        Err(SchemeError::ResourceExhausted)
    );
}

#[test]
fn unbounded_recursion_exhausts_resources() {
    let mut interpreter = Interpreter::new();
    interpreter.interpret("(define (spin n) (spin n))").unwrap();
    assert_eq!(
        interpreter.interpret("(spin 1)"),
        Err(SchemeError::ResourceExhausted)
    );
}
