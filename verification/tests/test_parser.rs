use risp::lexer::{Content, Token};
use risp::parser::{Object, ParenthesisCounter};

#[test]
fn test_parser_add() {
    let tokens = Token::tokenize("(+ 1 2)");
    let list = Object::from_tokens(tokens).unwrap();
    assert_eq!(
        list,
        Object::List(vec![
            Object::Symbol("+".to_string()),
            Object::Integer(1),
            Object::Integer(2)
        ])
    )
}

#[test]
fn test_parser_test_parser_add() {
    let tokens = Token::tokenize("(+ 1 2)");
    let list = Object::from_tokens(tokens).unwrap();
    assert_eq!(
        list,
        Object::List(vec![Object::Symbol("+".to_string()), Object::Integer(1), Object::Integer(2)])
    )
}

#[test]
fn test_parse_list() {
    let program = Token::tokenize("(1 2 3)");
    let list = Object::from_tokens(program).unwrap();
    assert_eq!(
        list,
        Object::List(vec![
            Object::Integer(1),
            Object::Integer(2),
            Object::Integer(3)
        ])
    );
}

#[test]
fn test_parser_test_area_of_a_circle() {
    let program = "(
        (let r 10)
        (let pi 314)
        (* pi (* r r))
    )";
    let tokens = Token::tokenize(program);

    let list = Object::from_tokens(tokens).unwrap();
    assert_eq!(
        list,
        Object::List(vec![
            Object::List(vec![
                Object::Symbol("let".to_string()),
                Object::Symbol("r".to_string()),
                Object::Integer(10)
            ]),
            Object::List(vec![
                Object::Symbol("let".to_string()),
                Object::Symbol("pi".to_string()),
                Object::Integer(314)
            ]),
            Object::List(vec![
                Object::Symbol("*".to_string()),
                Object::Symbol("pi".to_string()),
                Object::List(vec![
                    Object::Symbol("*".to_string()),
                    Object::Symbol("r".to_string()),
                    Object::Symbol("r".to_string())
                ])
            ])
        ])
    );
}

#[test]
fn test_parser_area_of_a_circle_with_define() {
    let program = "(
        (define r 10)
        (define pi 314)
        (* pi (* r r))
    )";
    let tokens = Token::tokenize(program);
    let list = Object::from_tokens(tokens).unwrap();
    assert_eq!(
        list,
        Object::List(vec![
            Object::List(vec![
                Object::Symbol("define".to_string()),
                Object::Symbol("r".to_string()),
                Object::Integer(10)
            ]),
            Object::List(vec![
                Object::Symbol("define".to_string()),
                Object::Symbol("pi".to_string()),
                Object::Integer(314)
            ]),
            Object::List(vec![
                Object::Symbol("*".to_string()),
                Object::Symbol("pi".to_string()),
                Object::List(vec![
                    Object::Symbol("*".to_string()),
                    Object::Symbol("r".to_string()),
                    Object::Symbol("r".to_string())
                ])
            ])
        ])
    );
}

#[test]
fn test_parse_unbalanced_expression_whitout_closing() {
    let program = "(+ 1 2";
    let tokens = Token::tokenize(program);

    assert_eq!(tokens.len(), 4);

    let objs_list = Object::from_tokens(tokens.clone());

    assert!(objs_list.is_err());

    let err = objs_list.err().unwrap();

    assert_eq!(err.to_string(), "0:1 Unmatched opening parenthesis");
}

#[test]
fn test_unbalanced_single_r_paren() {
    let program = ")";
    let tokens = Token::tokenize(program);

    assert_eq!(tokens.len(), 1);

    let objs_list = Object::from_tokens(tokens.clone());

    assert!(objs_list.is_err());

    let err = objs_list.err().unwrap();

    assert_eq!(err.to_string(), "0:1 Unmatched closing parenthesis");
}

#[test]
fn test_parse_unbalanced_expressions_with_extra_closing() {
    let program = "(+ 1 2))";
    let tokens = Token::tokenize(program);

    assert_eq!(tokens.len(), 6);

    let objs_list = Object::from_tokens(tokens.clone());

    assert!(objs_list.is_err());

    let err = objs_list.err().unwrap();

    assert_eq!(err.to_string(), "0:8 Unmatched closing parenthesis");
}

#[test]
fn test_list_dislay_trait() {
    let list = Object::List(vec![
        Object::Integer(1),
        Object::Integer(2),
        Object::Integer(3),
    ]);
    assert_eq!(list.to_string(), "(1 2 3)");
}

#[test]
fn test_display_of_each_kind() {
    assert_eq!(Object::Void.to_string(), "");
    assert_eq!(Object::Integer(-15).to_string(), "-15");
    assert_eq!(Object::Integer(0).to_string(), "0");
    assert_eq!(Object::Integer(i64::MAX).to_string(), "9223372036854775807");
    assert_eq!(Object::Integer(i64::MIN).to_string(), "-9223372036854775808");
    assert_eq!(Object::Bool(true).to_string(), "true");
    assert_eq!(Object::Bool(false).to_string(), "false");
    assert_eq!(Object::Symbol("abc".to_string()).to_string(), "abc");
    assert_eq!(Object::String("abc".to_string()).to_string(), "\"abc\"");
    assert_eq!(Object::List(vec![]).to_string(), "()");
    assert_eq!(Object::Lambda(vec!["x".to_string()], vec![]).to_string(), "");
    assert_eq!(Object::Function(vec![], vec![Object::Integer(1)]).to_string(), "");
    assert_eq!(
        Object::List(vec![
            Object::Symbol("f".to_string()),
            Object::List(vec![Object::String("a b".to_string()), Object::Bool(true)]),
            Object::Integer(7)
        ])
        .to_string(),
        "(f (\"a b\" true) 7)"
    );
}

#[test]
fn test_parse_strings_lose_their_quotes() {
    let tokens = Token::tokenize("(\"abc\" 'd' \"\" \" 'x\" \"y')");
    let parsed = Object::from_tokens(tokens).unwrap();
    assert_eq!(
        parsed,
        Object::List(vec![
            Object::String("abc".to_string()),
            Object::String("d".to_string()),
            Object::String("".to_string()),
            Object::Symbol("\"".to_string()),
            Object::Symbol("'x\"".to_string()),
            Object::Symbol("\"y'".to_string())
        ])
    );
}

#[test]
fn test_parse_top_level_shapes() {
    assert_eq!(Object::from_tokens(Token::tokenize("")).unwrap(), Object::Void);
    assert_eq!(Object::from_tokens(Token::tokenize("42")).unwrap(), Object::Integer(42));
    assert_eq!(
        Object::from_tokens(Token::tokenize("x")).unwrap(),
        Object::Symbol("x".to_string())
    );
    assert_eq!(Object::from_tokens(Token::tokenize("()")).unwrap(), Object::List(vec![]));
    assert_eq!(
        Object::from_tokens(Token::tokenize("1 (2) x")).unwrap(),
        Object::List(vec![
            Object::Integer(1),
            Object::List(vec![Object::Integer(2)]),
            Object::Symbol("x".to_string())
        ])
    );
}

#[test]
fn test_parse_error_names_earliest_open_parenthesis() {
    let tokens = Token::tokenize("(a\n  (b (c)");
    let err = Object::from_tokens(tokens).err().unwrap();
    assert_eq!(err.to_string(), "0:1 Unmatched opening parenthesis");
    assert_eq!(err.ch, 1);
    assert_eq!(err.line, 0);

    let tokens = Token::tokenize("(a)\n  (b");
    let err = Object::from_tokens(tokens).err().unwrap();
    assert_eq!(err.to_string(), "1:3 Unmatched opening parenthesis");
}

#[test]
fn test_parse_error_names_first_unmatched_closing() {
    let tokens = Token::tokenize("(a)\n ) ) (");
    let err = Object::from_tokens(tokens).err().unwrap();
    assert_eq!(err.to_string(), "1:2 Unmatched closing parenthesis");
    assert_eq!(err.err, "Unmatched closing parenthesis");
}

#[test]
fn test_round_trip_through_display() {
    let program = "(defun f (x y)   (if (< x y) \"less\" (concatenate 'a' \"b\"))   -12 ())";
    let parsed = Object::from_tokens(Token::tokenize(program)).unwrap();
    let shown = parsed.to_string();
    assert_eq!(shown, "(defun f (x y) (if (< x y) \"less\" (concatenate \"a\" \"b\")) -12 ())");
    let again = Object::from_tokens(Token::tokenize(shown.as_str())).unwrap();
    assert_eq!(again, parsed);
}

#[test]
fn test_parenthesis_counter() {
    let mut counter = ParenthesisCounter::new();
    assert!(counter.is_balanced());
    assert_eq!(counter.last_ch_and_line(), (0, 0));
    assert_eq!(counter.first_ch_and_line(), (0, 0));

    assert!(counter.compute(&Token::LParen(Content::new((), 3, 1))).is_ok());
    assert!(counter.compute(&Token::Integer(Content::new(5, 4, 1))).is_ok());
    assert!(counter.compute(&Token::LParen(Content::new((), 9, 2))).is_ok());
    assert!(!counter.is_balanced());
    assert_eq!(counter.last_ch_and_line(), (9, 2));
    assert_eq!(counter.first_ch_and_line(), (3, 1));

    assert!(counter.compute(&Token::RParen(Content::new((), 10, 2))).is_ok());
    assert_eq!(counter.last_ch_and_line(), (3, 1));
    assert!(counter.compute(&Token::RParen(Content::new((), 11, 2))).is_ok());
    assert!(counter.is_balanced());

    let err = counter.compute(&Token::RParen(Content::new((), 12, 2))).err().unwrap();
    assert_eq!(err.to_string(), "2:12 Unmatched closing parenthesis");
    assert!(counter.is_balanced());
}
