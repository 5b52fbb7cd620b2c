use scheme::error::SchemeError;
use scheme::parser::{LispVal, Parser};

#[test]
fn test_parse_integer() {
    let test_text = "4";
    let mut parser = Parser::new(test_text);
    if let LispVal::Integer(4) = parser.parse().unwrap() {
    } else {
        unreachable!();
    }
}

#[test]
fn test_parse_easy_list() {
    let mut parser = Parser::new("(+ 1 1)");
    if let LispVal::List(v) = parser.parse().unwrap() {
        assert_eq!(v[0], LispVal::Atom("+".to_string()));
        assert_eq!(v[1], LispVal::Integer(1));
        assert_eq!(v[2], LispVal::Integer(1));
    } else {
        unreachable!();
    }
}

#[test]
fn test_many_add() {
    let mut parser = Parser::new("(+ 1 1 1 1 1 1)");
    let equivlent_lispval = LispVal::List(vec![
        LispVal::Atom("+".to_string()),
        LispVal::Integer(1),
        LispVal::Integer(1),
        LispVal::Integer(1),
        LispVal::Integer(1),
        LispVal::Integer(1),
        LispVal::Integer(1),
    ]);
    assert_eq!(parser.parse().unwrap(), equivlent_lispval);
}

#[test]
fn test_deep_nested_list() {
    let mut parser = Parser::new(
        "
        (* (cond ((> a b) a)
        ((< a b) b)
        (else 1))
        (+ a 1))
        ",
    );

    let equivlent_lispval = LispVal::List(vec![
        LispVal::Atom("*".to_string()),
        LispVal::List(vec![
            LispVal::Atom("cond".to_string()),
            LispVal::List(vec![
                LispVal::List(vec![
                    LispVal::Atom(">".to_string()),
                    LispVal::Atom("a".to_string()),
                    LispVal::Atom("b".to_string()),
                ]),
                LispVal::Atom("a".to_string()),
            ]),
            LispVal::List(vec![
                LispVal::List(vec![
                    LispVal::Atom("<".to_string()),
                    LispVal::Atom("a".to_string()),
                    LispVal::Atom("b".to_string()),
                ]),
                LispVal::Atom("b".to_string()),
            ]),
            LispVal::List(vec![LispVal::Atom("else".to_string()), LispVal::Integer(1)]),
        ]),
        LispVal::List(vec![
            LispVal::Atom("+".to_string()),
            LispVal::Atom("a".to_string()),
            LispVal::Integer(1),
        ]),
    ]);

    assert_eq!(parser.parse().unwrap(), equivlent_lispval);
}

#[test]
fn test_parse_quote() {
    let mut parser = Parser::new("'(1 2 3)");
    let equivlent_lispval = LispVal::List(vec![
        LispVal::Atom("quote".to_string()),
        LispVal::List(vec![
            LispVal::Integer(1),
            LispVal::Integer(2),
            LispVal::Integer(3),
        ]),
    ]);
    assert_eq!(parser.parse().unwrap(), equivlent_lispval);
}

#[test]
fn parse_empty_list_and_booleans() {
    let mut parser = Parser::new("() #t #f");
    assert_eq!(parser.parse(), Ok(LispVal::List(vec![])));
    assert_eq!(parser.parse(), Ok(LispVal::Bool(true)));
    assert_eq!(parser.parse(), Ok(LispVal::Bool(false)));
    assert_eq!(parser.parse(), Err(SchemeError::ParseError));
}

#[test]
fn parse_stray_close_paren_fails() {
    assert_eq!(Parser::new(")").parse(), Err(SchemeError::ParseError));
}

#[test]
fn parse_premature_end_fails() {
    assert_eq!(Parser::new("(+ 1").parse(), Err(SchemeError::ParseError));
    assert_eq!(Parser::new("").parse(), Err(SchemeError::ParseError));
    assert_eq!(Parser::new("'").parse(), Err(SchemeError::ParseError));
}

#[test]
fn parse_float_and_char_are_unsupported() {
    assert_eq!(Parser::new("1.5").parse(), Err(SchemeError::Unsupported));
    assert_eq!(Parser::new(r"(a #\b)").parse(), Err(SchemeError::Unsupported));
}

#[test]
fn parse_unknown_token_is_a_lex_error() {
    assert_eq!(Parser::new("(1 2x)").parse(), Err(SchemeError::LexError));
}

#[test]
fn parse_leaves_the_rest() {
    let mut parser = Parser::new("(a) b");
    assert_eq!(parser.parse(), Ok(LispVal::List(vec![LispVal::Atom("a".to_string())])));
    assert_eq!(parser.parse(), Ok(LispVal::Atom("b".to_string())));
}

#[test]
fn to_integer_only_for_integers() {
    assert_eq!(LispVal::Integer(-3).to_integer(), Some(-3));
    assert_eq!(LispVal::Bool(true).to_integer(), None);
    assert_eq!(LispVal::Atom("1".to_string()).to_integer(), None);
}
