use scheme::lexer::{Cursor, Tokens};

const UNREACHABLE: bool = false;

#[test]
fn basic_primitive_test() {
    let mut lexer = Cursor::new("12345");
    assert_eq!(lexer.peek(), '1');
    assert_eq!(lexer.consume(), Some('1'));
    assert!(lexer.has_next());
    assert_eq!(
        lexer.consume_while_clone(|c: char| c.is_ascii_digit()),
        "2345"
    );
    assert!(lexer.is_eof());
    assert!(lexer.is_delimiter())
}

#[test]
fn get_int_test() {
    let number_text = "12345";
    let mut lexer = Cursor::new(number_text);
    if let Tokens::Int(i) = lexer.get_number() {
        assert_eq!(i, 12345);
    } else {
        assert!(UNREACHABLE);
    }
}

#[test]
fn parse_int_test() {
    let number_test = "12345";
    let mut lexer = Cursor::new(number_test);
    if let Tokens::Int(i) = lexer.get_next_token() {
        assert_eq!(i, 12345);
    } else {
        assert!(UNREACHABLE);
    }
}

#[test]
fn parse_float_test() {
    let float_test = "1.2";
    let mut lexer = Cursor::new(float_test);
    if let Tokens::Float(i) = lexer.get_next_token() {
        assert_eq!(i.parse::<f64>().unwrap(), 1.2);
        return;
    }
    assert!(UNREACHABLE)
}

#[test]
fn parse_bool_true_test() {
    let bool_test = "#t";
    let mut lexer = Cursor::new(bool_test);
    if let Tokens::Boolean(b) = lexer.get_next_token() {
        assert!(b);
        return;
    }
    assert!(UNREACHABLE)
}

#[test]
fn parse_bool_false_test() {
    let bool_test = "#f";
    let mut lexer = Cursor::new(bool_test);
    if let Tokens::Boolean(b) = lexer.get_next_token() {
        assert!(!b);
        return;
    }
    assert!(UNREACHABLE)
}

#[test]
fn parse_char_test() {
    let char_test = r"#\c";
    let mut lexer = Cursor::new(char_test);
    if let Tokens::Char(c) = lexer.get_next_token() {
        assert_eq!(c, 'c');
        return;
    }
    assert!(UNREACHABLE)
}

#[test]
fn parse_two_tokens() {
    let tokens_test = r"123.456 #t";
    let mut lexer = Cursor::new(tokens_test);
    if let Tokens::Float(f) = lexer.get_next_token() {
        assert_eq!(f.parse::<f64>().unwrap(), 123.456);
    } else {
        assert!(UNREACHABLE)
    }

    if let Tokens::Boolean(b) = lexer.get_next_token() {
        assert_eq!(b, true)
    } else {
        assert!(UNREACHABLE)
    }
}

#[test]
fn parse_paren_atom() {
    let paren_test = r"(+ 1 2)";
    let mut lexer = Cursor::new(paren_test);

    if let Tokens::LPAREN = lexer.get_next_token() {
    } else {
        unreachable!();
    }

    if let Tokens::Atom(s) = lexer.get_next_token() {
        assert_eq!(s, "+");
    } else {
        unreachable!();
    }

    if let Tokens::Int(1) = lexer.get_next_token() {
    } else {
        unreachable!();
    }

    if let Tokens::Int(2) = lexer.get_next_token() {
    } else {
        unreachable!();
    }

    if let Tokens::RPAREN = lexer.get_next_token() {
    } else {
        unreachable!();
    }
}

#[test]
fn integer_then_end_of_input_repeatedly() {
    for text in ["0", "7", "42", "9223372036854775807"] {
        let mut lexer = Cursor::new(text);
        assert_eq!(lexer.get_next_token(), Tokens::Int(text.parse::<i64>().unwrap()));
        for _ in 0..3 {
            assert_eq!(lexer.get_next_token(), Tokens::EOF);
            assert!(lexer.is_eof());
        }
    }
}

#[test]
fn empty_and_blank_input_is_end_of_input() {
    assert_eq!(Cursor::new("").get_next_token(), Tokens::EOF);
    assert_eq!(Cursor::new(" \t\n ").get_next_token(), Tokens::EOF);
}

#[test]
fn integer_too_large_is_unknown() {
    let mut lexer = Cursor::new("9223372036854775808");
    assert_eq!(lexer.get_next_token(), Tokens::Unknown);
    assert_eq!(lexer.get_next_token(), Tokens::EOF);
}

#[test]
fn integer_before_close_paren() {
    let mut lexer = Cursor::new("12)");
    assert_eq!(lexer.get_next_token(), Tokens::Int(12));
    assert_eq!(lexer.get_next_token(), Tokens::RPAREN);
}

#[test]
fn float_before_close_paren() {
    let mut lexer = Cursor::new("(2.5)");
    assert_eq!(lexer.get_next_token(), Tokens::LPAREN);
    assert_eq!(lexer.get_next_token(), Tokens::Float("2.5".to_string()));
    assert_eq!(lexer.get_next_token(), Tokens::RPAREN);
}

#[test]
fn digits_then_letter_is_unknown() {
    let mut lexer = Cursor::new("12a");
    assert_eq!(lexer.get_next_token(), Tokens::Unknown);
    assert_eq!(lexer.get_next_token(), Tokens::Atom("a".to_string()));
}

#[test]
fn hash_literals_that_are_unknown() {
    assert_eq!(Cursor::new("#").get_next_token(), Tokens::Unknown);
    assert_eq!(Cursor::new("#x").get_next_token(), Tokens::Unknown);
    assert_eq!(Cursor::new(r"#\").get_next_token(), Tokens::Unknown);
    assert_eq!(Cursor::new(r"#\ab").get_next_token(), Tokens::Unknown);
}

#[test]
fn character_before_close_paren() {
    let mut lexer = Cursor::new(r"#\a)");
    assert_eq!(lexer.get_next_token(), Tokens::Char('a'));
    assert_eq!(lexer.get_next_token(), Tokens::RPAREN);
}

#[test]
fn atoms_stop_at_whitespace_and_close_paren() {
    let mut lexer = Cursor::new("  quote'x eq?)");
    assert_eq!(lexer.get_next_token(), Tokens::Atom("quote'x".to_string()));
    assert_eq!(lexer.get_next_token(), Tokens::Atom("eq?".to_string()));
    assert_eq!(lexer.get_next_token(), Tokens::RPAREN);
    assert_eq!(lexer.get_next_token(), Tokens::EOF);
}

#[test]
fn quote_mark_token() {
    let mut lexer = Cursor::new("'a");
    assert_eq!(lexer.get_next_token(), Tokens::QUOTE);
    assert_eq!(lexer.get_next_token(), Tokens::Atom("a".to_string()));
}

#[test]
fn consume_at_end_returns_none() {
    let mut lexer = Cursor::new("");
    assert_eq!(lexer.consume(), None);
    assert_eq!(lexer.peek(), '\0');
    assert!(!lexer.has_next());
}
